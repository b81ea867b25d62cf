//! Scans: what can be requested, and the actor that carries one run.

use crate::models::{ScanActive, ScanCompleted, ScanKind, ScanPending};
use crate::range::ScanRange;
use vstd::prelude::*;

verus! {

/// The earliest time on the library's timeline: the Unix epoch. A full scan
/// starts here, and so does the scan cursor of a new camera.
pub const SCAN_EPOCH: i64 = 0;

/// Entry points of the scheduler.
pub struct Scan;

impl Scan {
    /// The scan cursor that a new camera starts with.
    pub fn cursor() -> (t: i64)
        ensures
            t == SCAN_EPOCH,
    {
        SCAN_EPOCH
    }
}

/// A scan as the operator requests it.
#[derive(Clone, Copy, Debug, PartialEq, Eq, Structural)]
pub enum ScanKindPending {
    Full,
    Cursor,
    Manual(ScanRange),
}

impl ScanKindPending {
    /// The kind under which the request is queued.
    pub open spec fn kind(self) -> ScanKind {
        match self {
            ScanKindPending::Full => ScanKind::Full,
            ScanKindPending::Cursor => ScanKind::Cursor,
            ScanKindPending::Manual(_) => ScanKind::Manual,
        }
    }

    /// Whether the request names a range that does not end before it starts.
    /// Only a manual scan can fail to: from the epoch on, the range of a full
    /// scan and of a cursor scan is in order.
    pub open spec fn ordered(self) -> bool {
        match self {
            ScanKindPending::Manual(r) => r.start <= r.end,
            _ => true,
        }
    }

    /// The range that is queued with a request made at `now`.
    ///
    /// A full scan is queued with everything up to `now`. A cursor scan takes
    /// its start from the camera when it is started, so it is queued with the
    /// empty range at `now`. A manual scan is queued with its own range.
    pub open spec fn range_at(self, now: i64) -> (i64, i64) {
        match self {
            ScanKindPending::Full => (SCAN_EPOCH, now),
            ScanKindPending::Cursor => (now, now),
            ScanKindPending::Manual(r) => (r.start, r.end),
        }
    }

    /// The row that a request made at `now` for camera `camera_id` queues.
    pub open spec fn pending_at(self, camera_id: i64, now: i64) -> ScanPending {
        ScanPending {
            camera_id,
            kind: self.kind(),
            range_start: self.range_at(now).0,
            range_end: self.range_at(now).1,
        }
    }

    /// The range that is queued with a request made at `now`.
    pub fn range(&self, now: i64) -> (r: (i64, i64))
        ensures
            r == self.range_at(now),
    {
        match self {
            ScanKindPending::Full => (SCAN_EPOCH, now),
            ScanKindPending::Cursor => (now, now),
            ScanKindPending::Manual(r) => (r.start, r.end),
        }
    }
}

impl From<ScanKindPending> for ScanKind {
    fn from(kind: ScanKindPending) -> (r: ScanKind) {
        match kind {
            ScanKindPending::Full => ScanKind::Full,
            ScanKindPending::Cursor => ScanKind::Cursor,
            ScanKindPending::Manual(_) => ScanKind::Manual,
        }
    }
}

impl vstd::std_specs::convert::FromSpecImpl<ScanKindPending> for ScanKind {
    open spec fn obeys_from_spec() -> bool {
        true
    }

    open spec fn from_spec(kind: ScanKindPending) -> ScanKind {
        kind.kind()
    }
}

/// The part of a camera that a cursor scan reads.
#[derive(Clone, Copy, Debug, PartialEq, Eq, Structural)]
pub struct ScanCamera {
    pub id: i64,
    pub scan_cursor: i64,
}

/// One run of a scan on one camera, with what it has gathered so far.
#[derive(Debug)]
pub struct ScanActor {
    pub camera_id: i64,
    pub kind: ScanKind,
    pub range: ScanRange,
    pub started_at: i64,
    pub upserted: u64,
    pub deleted: u64,
    /// Why the run failed; empty while it has not.
    pub error: String,
}

impl ScanActor {
    /// The row that stands for a run from the moment it starts: nothing
    /// scanned yet, the progress cursor at the end of the range.
    pub open spec fn active_row(
        camera_id: i64,
        kind: ScanKind,
        range: ScanRange,
        started_at: i64,
    ) -> ScanActive {
        ScanActive {
            camera_id,
            kind,
            range_start: range.start,
            range_end: range.end,
            started_at,
            range_cursor: range.end,
            percent: 0,
            upserted: 0,
            deleted: 0,
        }
    }

    /// The row that stands for this run when it starts.
    pub open spec fn initial_row(&self) -> ScanActive {
        Self::active_row(self.camera_id, self.kind, self.range, self.started_at)
    }

    /// Whether the actor is at the start of the run that `row` stands for.
    pub open spec fn is_fresh(&self, row: ScanActive) -> bool {
        &&& self.initial_row() == row
        &&& self.upserted == 0
        &&& self.deleted == 0
        &&& self.error@.len() == 0
    }

    /// Whether the run has not failed.
    pub open spec fn spec_success(&self) -> bool {
        self.error@.len() == 0
    }

    /// Whether the run is kept in the history: every run is, but for a cursor
    /// scan that succeeded without touching a file.
    pub open spec fn spec_should_save(&self) -> bool {
        !(self.kind == ScanKind::Cursor && self.spec_success() && self.upserted == 0
            && self.deleted == 0)
    }

    /// The time up to which the run has confirmed the index, if any: the end
    /// of the range of a full or cursor scan that succeeded.
    pub open spec fn spec_scan_cursor(&self) -> Option<i64> {
        if self.spec_success() && self.kind != ScanKind::Manual {
            Some(self.range.end)
        } else {
            None
        }
    }

    /// Milliseconds from `started_at` to `now`, held within `i64`.
    pub open spec fn spec_duration(&self, now: i64) -> i64 {
        if now - self.started_at > i64::MAX {
            i64::MAX
        } else if now - self.started_at < i64::MIN {
            i64::MIN
        } else {
            (now - self.started_at) as i64
        }
    }

    fn start(camera_id: i64, kind: ScanKind, range: ScanRange, now: i64) -> (a: ScanActor)
        ensures
            a.is_fresh(Self::active_row(camera_id, kind, range, now)),
    {
        ScanActor {
            camera_id,
            kind,
            range,
            started_at: now,
            upserted: 0,
            deleted: 0,
            error: String::new(),
        }
    }

    /// A full scan of camera `camera_id` that starts at `now`.
    pub fn full(camera_id: i64, now: i64) -> (a: ScanActor)
        ensures
            a.is_fresh(
                Self::active_row(
                    camera_id,
                    ScanKind::Full,
                    ScanRange { start: SCAN_EPOCH, end: now },
                    now,
                ),
            ),
    {
        Self::start(camera_id, ScanKind::Full, ScanRange { start: SCAN_EPOCH, end: now }, now)
    }

    /// A scan of `camera` from its scan cursor up to `now`, where it starts.
    pub fn cursor(camera: ScanCamera, now: i64) -> (a: ScanActor)
        ensures
            a.is_fresh(
                Self::active_row(
                    camera.id,
                    ScanKind::Cursor,
                    ScanRange { start: camera.scan_cursor, end: now },
                    now,
                ),
            ),
    {
        Self::start(
            camera.id,
            ScanKind::Cursor,
            ScanRange { start: camera.scan_cursor, end: now },
            now,
        )
    }

    /// A scan of camera `camera_id` over `range` that starts at `now`.
    pub fn manual(camera_id: i64, range: ScanRange, now: i64) -> (a: ScanActor)
        ensures
            a.is_fresh(Self::active_row(camera_id, ScanKind::Manual, range, now)),
    {
        Self::start(camera_id, ScanKind::Manual, range, now)
    }

    /// A second run of a completed scan, with its kind and range, that starts
    /// at `now`.
    pub fn from_completed(completed: &ScanCompleted, now: i64) -> (a: ScanActor)
        ensures
            a.is_fresh(
                Self::active_row(
                    completed.camera_id,
                    completed.kind,
                    ScanRange { start: completed.range_start, end: completed.range_end },
                    now,
                ),
            ),
    {
        Self::start(
            completed.camera_id,
            completed.kind,
            ScanRange { start: completed.range_start, end: completed.range_end },
            now,
        )
    }

    /// Whether the run has not failed.
    pub fn success(&self) -> (b: bool)
        ensures
            b == self.spec_success(),
    {
        self.error.as_str().is_empty()
    }

    /// Whether the operator may ask for the run to be made again: only a
    /// failed run can be retried.
    pub fn can_retry(&self) -> (b: bool)
        ensures
            b == !self.spec_success(),
    {
        !self.success()
    }

    /// Whether the run is kept in the history.
    pub fn should_save(&self) -> (b: bool)
        ensures
            b == self.spec_should_save(),
    {
        let quiet = match self.kind {
            ScanKind::Cursor => self.success() && self.upserted == 0 && self.deleted == 0,
            _ => false,
        };
        !quiet
    }

    /// The time that the camera's scan cursor may move up to, if any.
    pub fn should_update_scan_cursor(&self) -> (c: Option<i64>)
        ensures
            c == self.spec_scan_cursor(),
    {
        let manual = match self.kind {
            ScanKind::Manual => true,
            _ => false,
        };
        if self.success() && !manual {
            Some(self.range.end)
        } else {
            None
        }
    }

    /// Milliseconds that the run has taken at `now`.
    pub fn duration(&self, now: i64) -> (d: i64)
        ensures
            d == self.spec_duration(now),
    {
        let d: i128 = now as i128 - self.started_at as i128;
        if d > i64::MAX as i128 {
            i64::MAX
        } else if d < i64::MIN as i128 {
            i64::MIN
        } else {
            d as i64
        }
    }
}

} // verus!
