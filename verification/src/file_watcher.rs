//! The watcher's decisions: when a change of the watched binary counts as
//! done.
//!
//! A binary that is being rebuilt changes many times. The watcher reports a
//! change only when a modification was seen, three snapshots of the file's
//! size and modification time taken 200 ms apart are equal, and they differ
//! from the snapshot reported last. The program around the library receives
//! the filesystem's events, takes the snapshots and sleeps between them.

use vstd::prelude::*;

verus! {

/// How long to wait between two snapshots, in milliseconds.
pub const STABILITY_WAIT_MS: u32 = 200;

/// A file's size and modification time at one moment.
#[derive(Copy, Clone, PartialEq, Eq, Debug, Structural)]
pub struct FileSnapshot {
    pub size: u64,
    /// Whole seconds of the modification time since the Unix epoch.
    pub modified_secs: i64,
    /// The nanoseconds beyond the whole seconds.
    pub modified_nanos: u32,
}

impl FileSnapshot {
    /// Whether two snapshots show the same size and modification time.
    pub fn matches(&self, other: &FileSnapshot) -> (r: bool)
        ensures
            r == (*self == *other),
    {
        self.size == other.size && self.modified_secs == other.modified_secs && self.modified_nanos
            == other.modified_nanos
    }
}

/// What came from the filesystem's notifications.
#[derive(Copy, Clone, PartialEq, Eq, Debug, Structural)]
pub enum WatchEvent {
    /// The file was modified and has come to rest for the moment.
    Modified,
    /// The file is still being modified.
    StillChanging,
    /// The notification service reported an error; watching goes on.
    Faulty,
    /// The notification service is gone.
    Disconnected,
}

/// Why watching has ended.
#[derive(Copy, Clone, PartialEq, Eq, Debug, Structural)]
pub enum WatchError {
    /// The notification service is gone.
    Disconnected,
}

/// What the watcher asks for or reports.
#[derive(Copy, Clone, PartialEq, Eq, Debug, Structural)]
pub enum WatcherStep {
    /// Nothing to report: no change, or the file is not at rest yet.
    NoChange,
    /// Take a snapshot now and hand it to `is_file_stable`.
    Probe,
    /// Sleep this many milliseconds, then take a snapshot and hand it to
    /// `is_file_stable`.
    WaitThenProbe(u32),
    /// The file has changed and is at rest.
    ChangedAndStable,
}

/// How far a stability check has come.
#[derive(Copy, Clone, PartialEq, Eq, Debug, Structural)]
pub enum CheckProgress {
    /// No check is under way.
    Idle,
    /// A check has begun; no snapshot has been taken.
    Started,
    /// One snapshot has been taken.
    One(FileSnapshot),
    /// Two snapshots have been taken, and they are equal.
    Two(FileSnapshot),
}

/// Watches one file for changes that are complete.
pub struct FileWatcher {
    file_path: String,
    last_notified_snapshot: Option<FileSnapshot>,
    progress: CheckProgress,
}

/// Whether any of the events says that the notification service is gone.
pub open spec fn any_disconnected(events: Seq<WatchEvent>) -> bool {
    exists|i: int| 0 <= i < events.len() && events[i] == WatchEvent::Disconnected
}

/// Whether any of the events is a modification.
pub open spec fn any_modified(events: Seq<WatchEvent>) -> bool {
    exists|i: int| 0 <= i < events.len() && events[i] == WatchEvent::Modified
}

/// What a snapshot, or the lack of one, does to a check: the progress
/// after it, and the step to take.
pub open spec fn probe_result(
    progress: CheckProgress,
    last: Option<FileSnapshot>,
    probe: Option<FileSnapshot>,
) -> (CheckProgress, WatcherStep) {
    match (progress, probe) {
        (CheckProgress::Started, Some(s)) => (
            CheckProgress::One(s),
            WatcherStep::WaitThenProbe(STABILITY_WAIT_MS),
        ),
        (CheckProgress::One(first), Some(s)) => if first == s {
            (CheckProgress::Two(s), WatcherStep::WaitThenProbe(STABILITY_WAIT_MS))
        } else {
            (CheckProgress::Idle, WatcherStep::NoChange)
        },
        (CheckProgress::Two(second), Some(s)) => if second == s && last != Some(s) {
            (CheckProgress::Idle, WatcherStep::ChangedAndStable)
        } else {
            (CheckProgress::Idle, WatcherStep::NoChange)
        },
        _ => (CheckProgress::Idle, WatcherStep::NoChange),
    }
}

impl FileWatcher {
    /// The path being watched.
    pub closed spec fn watched(&self) -> Seq<char> {
        self.file_path@
    }

    /// The snapshot of the change reported last.
    pub closed spec fn last_notified(&self) -> Option<FileSnapshot> {
        self.last_notified_snapshot
    }

    /// How far the stability check has come.
    pub closed spec fn progress(&self) -> CheckProgress {
        self.progress
    }

    /// A watcher for a file. Nothing has been reported yet, so the first
    /// change that comes to rest is reported.
    pub fn new(path: String) -> (w: FileWatcher)
        ensures
            w.watched() == path@,
            w.last_notified() is None,
            w.progress() == CheckProgress::Idle,
    {
        FileWatcher { file_path: path, last_notified_snapshot: None, progress: CheckProgress::Idle }
    }

    /// The path being watched.
    pub fn path(&self) -> (p: &String)
        ensures
            p@ == self.watched(),
    {
        &self.file_path
    }

    /// Takes in the events that have come since the last call. When the
    /// notification service is gone, watching has failed. When a
    /// modification is among the events, a stability check begins with a
    /// first snapshot. Otherwise there is nothing to report.
    pub fn check_for_stable_change(&mut self, events: &[WatchEvent]) -> (r: Result<
        WatcherStep,
        WatchError,
    >)
        ensures
            final(self).watched() == old(self).watched(),
            final(self).last_notified() == old(self).last_notified(),
            any_disconnected(events@) ==> r == Err::<WatcherStep, WatchError>(
                WatchError::Disconnected,
            ) && final(self).progress() == old(self).progress(),
            !any_disconnected(events@) && any_modified(events@) ==> r == Ok::<
                WatcherStep,
                WatchError,
            >(WatcherStep::Probe) && final(self).progress() == CheckProgress::Started,
            !any_disconnected(events@) && !any_modified(events@) ==> r == Ok::<
                WatcherStep,
                WatchError,
            >(WatcherStep::NoChange) && final(self).progress() == CheckProgress::Idle,
    {
        let mut has_event = false;
        let mut i: usize = 0;
        while i < events.len()
            invariant
                i <= events.len(),
                has_event <==> exists|j: int| 0 <= j < i && events@[j] == WatchEvent::Modified,
                forall|j: int| 0 <= j < i ==> events@[j] != WatchEvent::Disconnected,
            decreases events.len() - i,
        {
            match events[i] {
                WatchEvent::Modified => {
                    has_event = true;
                },
                WatchEvent::Disconnected => {
                    return Err(WatchError::Disconnected);
                },
                _ => {},
            }
            i = i + 1;
        }
        if has_event {
            self.progress = CheckProgress::Started;
            Ok(WatcherStep::Probe)
        } else {
            self.progress = CheckProgress::Idle;
            Ok(WatcherStep::NoChange)
        }
    }

    /// Takes in a snapshot of the file, or `None` when the file is not
    /// there or cannot be read, and says how the stability check goes on.
    ///
    /// The check ends without a report as soon as the file is missing or a
    /// snapshot differs from the one before. After three equal snapshots the
    /// change is reported, unless the snapshot is the one reported last; the
    /// snapshot reported is remembered.
    pub fn is_file_stable(&mut self, probe: Option<FileSnapshot>) -> (r: WatcherStep)
        ensures
            final(self).watched() == old(self).watched(),
            (final(self).progress(), r) == probe_result(
                old(self).progress(),
                old(self).last_notified(),
                probe,
            ),
            final(self).last_notified() == if r == WatcherStep::ChangedAndStable {
                probe
            } else {
                old(self).last_notified()
            },
    {
        let snapshot = match probe {
            Some(s) => s,
            None => {
                self.progress = CheckProgress::Idle;
                return WatcherStep::NoChange;
            },
        };
        match self.progress {
            CheckProgress::Started => {
                self.progress = CheckProgress::One(snapshot);
                WatcherStep::WaitThenProbe(STABILITY_WAIT_MS)
            },
            CheckProgress::One(first) => {
                if first.matches(&snapshot) {
                    self.progress = CheckProgress::Two(snapshot);
                    WatcherStep::WaitThenProbe(STABILITY_WAIT_MS)
                } else {
                    self.progress = CheckProgress::Idle;
                    WatcherStep::NoChange
                }
            },
            CheckProgress::Two(second) => {
                self.progress = CheckProgress::Idle;
                let is_new_version = match self.last_notified_snapshot {
                    Some(last) => !last.matches(&snapshot),
                    None => true,
                };
                if second.matches(&snapshot) && is_new_version {
                    self.last_notified_snapshot = Some(snapshot);
                    WatcherStep::ChangedAndStable
                } else {
                    WatcherStep::NoChange
                }
            },
            CheckProgress::Idle => {
                self.progress = CheckProgress::Idle;
                WatcherStep::NoChange
            },
        }
    }
}

/// A change is reported only for a file at rest: whenever a snapshot leads
/// to a report, a check was under way that had seen two snapshots before it,
/// the three are equal, and they differ from the snapshot reported last.
pub proof fn lemma_report_means_stable(
    progress: CheckProgress,
    last: Option<FileSnapshot>,
    probe: Option<FileSnapshot>,
)
    requires
        probe_result(progress, last, probe).1 == WatcherStep::ChangedAndStable,
    ensures
        progress matches CheckProgress::Two(second) && probe == Some(second) && last != probe,
{
}

/// The second snapshot is kept only when it equals the first: a check that
/// has seen two snapshots has seen two equal ones.
pub proof fn lemma_two_means_equal(
    progress: CheckProgress,
    last: Option<FileSnapshot>,
    probe: Option<FileSnapshot>,
)
    requires
        probe_result(progress, last, probe).0 is Two,
    ensures
        progress matches CheckProgress::One(first) && probe == Some(first) && probe_result(
            progress,
            last,
            probe,
        ).0 == CheckProgress::Two(first),
{
}

} // verus!
