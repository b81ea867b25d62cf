//! The queues of the scheduler: pending, active and completed scans.
//!
//! A scan is queued, starts when no scan of its camera is running, records
//! its progress while it runs, and ends in the history. The first part of
//! this file says what each of these steps does to the store; the second
//! part does it.

use crate::db::invariants::{
    lemma_completed_update, lemma_progress, lemma_queue_all_wf, lemma_queue_wf,
};
use crate::db::{camera_ids, exclusive, Store, StoreView};
use crate::error::DbError;
use crate::laws::Op;
use crate::models::{CameraRecord, ScanActive, ScanCompleted, ScanKind, ScanPending};
use crate::range::ScanRange;
use crate::scan::{Scan, ScanActor, ScanCamera, ScanKindPending, SCAN_EPOCH};
use crate::seqs::{lemma_filter_all, lemma_filter_one};
use vstd::prelude::*;

verus! {

impl StoreView {
    /// The store after `row` is queued: it takes the place of whatever was
    /// queued for its camera, at the end of the queue.
    pub open spec fn queue(self, row: ScanPending) -> StoreView {
        StoreView {
            pending: self.pending.filter(|p: ScanPending| p.camera_id != row.camera_id).push(row),
            ..self
        }
    }

    /// The store after a scan of this kind is queued at `now` for every
    /// camera: one row per camera, in the order of the cameras.
    pub open spec fn queue_all(self, kind: ScanKindPending, now: i64) -> StoreView {
        StoreView {
            pending: Seq::new(
                self.cameras.len(),
                |i: int| kind.pending_at(self.cameras[i].id, now),
            ),
            ..self
        }
    }

    /// Whether the queued scan at `i` can start: no scan of its camera is
    /// running.
    pub open spec fn pending_eligible(self, i: int) -> bool {
        0 <= i < self.pending.len() && !self.is_active(self.pending[i].camera_id)
    }

    /// Whether the completed scan at `i` can start again: a retry was asked
    /// for and no scan of its camera is running.
    pub open spec fn retry_eligible(self, i: int) -> bool {
        0 <= i < self.completed.len() && self.completed[i].retry_pending && !self.is_active(
            self.completed[i].camera_id,
        )
    }

    /// The place of the first queued scan from `from` on that can start; the
    /// length of the queue when there is none.
    pub open spec fn first_pending_from(self, from: int) -> int
        decreases self.pending.len() - from,
    {
        if from < 0 || from >= self.pending.len() {
            self.pending.len() as int
        } else if self.pending_eligible(from) {
            from
        } else {
            self.first_pending_from(from + 1)
        }
    }

    /// The place of the first completed scan from `from` on that can start
    /// again; the length of the history when there is none.
    pub open spec fn first_retry_from(self, from: int) -> int
        decreases self.completed.len() - from,
    {
        if from < 0 || from >= self.completed.len() {
            self.completed.len() as int
        } else if self.retry_eligible(from) {
            from
        } else {
            self.first_retry_from(from + 1)
        }
    }

    /// The place of the first queued scan that can start.
    pub open spec fn next_pending(self) -> Option<int> {
        if self.first_pending_from(0) < self.pending.len() {
            Some(self.first_pending_from(0))
        } else {
            None
        }
    }

    /// The place of the first completed scan that can start again.
    pub open spec fn next_retry(self) -> Option<int> {
        if self.first_retry_from(0) < self.completed.len() {
            Some(self.first_retry_from(0))
        } else {
            None
        }
    }

    /// Whether nothing can start: every queued scan and every retry waits for
    /// a running scan of its camera.
    pub open spec fn idle(self) -> bool {
        self.next_pending() is None && self.next_retry() is None
    }

    /// The row of the run that the queued scan `p` starts at `now`. A full
    /// scan runs from the epoch to `now`, a cursor scan from the camera's scan
    /// cursor to `now`, a manual scan over the range it was queued with.
    pub open spec fn activation(self, p: ScanPending, now: i64) -> ScanActive {
        ScanActor::active_row(
            p.camera_id,
            p.kind,
            match p.kind {
                ScanKind::Full => ScanRange { start: SCAN_EPOCH, end: now },
                ScanKind::Cursor => ScanRange {
                    start: self.camera(p.camera_id).scan_cursor,
                    end: now,
                },
                ScanKind::Manual => ScanRange { start: p.range_start, end: p.range_end },
            },
            now,
        )
    }

    /// The row of the run that starts the completed scan `c` again at `now`,
    /// with its kind and range.
    pub open spec fn reactivation(c: ScanCompleted, now: i64) -> ScanActive {
        ScanActor::active_row(
            c.camera_id,
            c.kind,
            ScanRange { start: c.range_start, end: c.range_end },
            now,
        )
    }

    /// The completed scan `c` once its retry has been picked up: it asks for
    /// none and allows none.
    pub open spec fn picked_up(c: ScanCompleted) -> ScanCompleted {
        ScanCompleted { retry_pending: false, can_retry: false, ..c }
    }

    /// The store after the queued scan at `i` has started at `now`.
    pub open spec fn start_pending(self, i: int, now: i64) -> StoreView {
        StoreView {
            pending: self.pending.remove(i),
            active: self.active.push(self.activation(self.pending[i], now)),
            ..self
        }
    }

    /// The store after the completed scan at `i` has started again at `now`.
    pub open spec fn start_retry(self, i: int, now: i64) -> StoreView {
        StoreView {
            completed: self.completed.update(i, Self::picked_up(self.completed[i])),
            active: self.active.push(Self::reactivation(self.completed[i], now)),
            ..self
        }
    }

    /// What starts next at `now`, and the store after it has: the first queued
    /// scan that can start, which leaves the queue; if there is none, the
    /// first completed scan that can start again. The new run is added to the
    /// running scans. `None` when the store is idle.
    pub open spec fn next(self, now: i64) -> Option<(ScanActive, StoreView)> {
        match self.next_pending() {
            Some(i) => Some((self.activation(self.pending[i], now), self.start_pending(i, now))),
            None => match self.next_retry() {
                Some(i) => Some(
                    (Self::reactivation(self.completed[i], now), self.start_retry(i, now)),
                ),
                None => None,
            },
        }
    }

    /// The store after the progress of the run on `camera_id` is recorded.
    /// A camera without a running scan records nothing.
    pub open spec fn progress(
        self,
        camera_id: i64,
        range_cursor: i64,
        percent: u8,
        upserted: u64,
        deleted: u64,
    ) -> StoreView {
        StoreView {
            active: Seq::new(
                self.active.len(),
                |i: int|
                    if self.active[i].camera_id == camera_id {
                        ScanActive { range_cursor, percent, upserted, deleted, ..self.active[i] }
                    } else {
                        self.active[i]
                    },
            ),
            ..self
        }
    }

    /// The place of the running scan of this camera.
    pub open spec fn active_index(self, camera_id: i64) -> int {
        choose|i: int|
            0 <= i < self.active.len() && (#[trigger] self.active[i]).camera_id == camera_id
    }

    /// The history row of a run that ends at `now`: its progress is read from
    /// the row `row` of the running scan, its outcome from the actor.
    pub open spec fn completed_row(id: i64, row: ScanActive, actor: ScanActor, now: i64)
        -> ScanCompleted {
        ScanCompleted {
            id,
            camera_id: row.camera_id,
            kind: row.kind,
            range_start: row.range_start,
            range_end: row.range_end,
            started_at: row.started_at,
            range_cursor: row.range_cursor,
            upserted: row.upserted,
            deleted: row.deleted,
            percent: row.percent,
            duration: actor.spec_duration(now),
            success: actor.spec_success(),
            error: actor.error,
            can_retry: !actor.spec_success(),
            retry_pending: false,
        }
    }

    /// Whether the end of the actor's run adds a row to the history: the run
    /// is one to keep, and it is among the running scans.
    pub open spec fn saves(self, actor: ScanActor) -> bool {
        actor.spec_should_save() && self.is_active(actor.camera_id)
    }

    /// The cameras after the scan cursor of `camera_id` has been moved up
    /// to `cursor`. A cursor that is not ahead of the camera's moves nothing.
    pub open spec fn ratchet(self, camera_id: i64, cursor: Option<i64>) -> Seq<CameraRecord> {
        Seq::new(
            self.cameras.len(),
            |i: int|
                if self.cameras[i].id == camera_id && cursor is Some && self.cameras[i].scan_cursor
                    < cursor->0 {
                    CameraRecord { scan_cursor: cursor->0, ..self.cameras[i] }
                } else {
                    self.cameras[i]
                },
        )
    }

    /// The store after the actor's run has ended at `now`: the run is written
    /// to the history if it is one to keep, it leaves the running scans, and
    /// the scan cursor of its camera moves up to what it confirmed.
    pub open spec fn finish(self, actor: ScanActor, now: i64) -> StoreView {
        StoreView {
            cameras: self.ratchet(actor.camera_id, actor.spec_scan_cursor()),
            active: self.active.filter(|a: ScanActive| a.camera_id != actor.camera_id),
            completed: if self.saves(actor) {
                self.completed.push(
                    Self::completed_row(
                        self.next_completed_id as i64,
                        self.active[self.active_index(actor.camera_id)],
                        actor,
                        now,
                    ),
                )
            } else {
                self.completed
            },
            next_completed_id: if self.saves(actor) {
                self.next_completed_id + 1
            } else {
                self.next_completed_id
            },
            ..self
        }
    }

    /// Whether there is a completed scan with this id.
    pub open spec fn has_completed(self, id: i64) -> bool {
        exists|i: int| 0 <= i < self.completed.len() && (#[trigger] self.completed[i]).id == id
    }

    /// The place of the completed scan with this id in the history.
    pub open spec fn completed_index(self, id: i64) -> int {
        choose|i: int| 0 <= i < self.completed.len() && (#[trigger] self.completed[i]).id == id
    }

    /// Whether a retry of the completed scan with this id can be asked for:
    /// the scan exists and allows it.
    pub open spec fn can_retry(self, id: i64) -> bool {
        self.has_completed(id) && self.completed[self.completed_index(id)].can_retry
    }

    /// The store after a retry of the completed scan with this id is asked
    /// for.
    pub open spec fn retry(self, id: i64) -> StoreView {
        StoreView {
            completed: self.completed.update(
                self.completed_index(id),
                ScanCompleted { retry_pending: true, ..self.completed[self.completed_index(id)] },
            ),
            ..self
        }
    }
}

impl Scan {
    /// Queues a scan of camera `camera_id`, requested at `now`. The request
    /// replaces any scan that is queued for the camera.
    ///
    /// Fails with `NotFound` when the camera does not exist, else with
    /// `Conflict` when the range of the request ends before it starts. A
    /// request that fails changes nothing.
    pub fn queue_db(store: &mut Store, kind: ScanKindPending, camera_id: i64, now: i64) -> (r:
        Result<(), DbError>)
        requires
            old(store).wf(),
        ensures
            final(store).wf(),
            r is Ok <==> old(store)@.has_camera(camera_id) && kind.range_at(now).0
                <= kind.range_at(now).1,
            r == Err::<(), DbError>(DbError::NotFound) <==> !old(store)@.has_camera(camera_id),
            r == Err::<(), DbError>(DbError::Conflict) <==> old(store)@.has_camera(camera_id)
                && kind.range_at(now).0 > kind.range_at(now).1,
            r is Ok ==> final(store)@ == old(store)@.queue(kind.pending_at(camera_id, now)),
            r is Err ==> final(store)@ == old(store)@,
            final(store)@ == old(store)@.apply(Op::Queue { camera_id, kind, now }),
    {
        if store.find_camera(camera_id).is_none() {
            return Err(DbError::NotFound);
        }
        let (range_start, range_end) = kind.range(now);
        if range_start > range_end {
            return Err(DbError::Conflict);
        }
        let row = ScanPending { camera_id, kind: ScanKind::from(kind), range_start, range_end };
        let ghost keep = |p: ScanPending| p.camera_id != camera_id;
        match store.find_pending(camera_id) {
            Some(k) => {
                proof {
                    lemma_filter_one(store@.pending, keep, k as int);
                }
                store.pending.remove(k);
            },
            None => {
                proof {
                    lemma_filter_all(store@.pending, keep);
                }
            },
        }
        store.pending.push(row);
        proof {
            assert(store@.pending == old(store)@.pending.filter(keep).push(row));
            assert(store@.cameras == old(store)@.cameras);
            lemma_queue_wf(old(store)@.pending, camera_ids(store@.cameras), row);
        }
        Ok(())
    }

    /// Queues a scan of this kind, requested at `now`, for every camera. Each
    /// request replaces whatever was queued for its camera.
    ///
    /// Fails with `Conflict`, changing nothing, when there is a camera and
    /// the range of the request ends before it starts.
    pub fn queue_all_db(store: &mut Store, kind: ScanKindPending, now: i64) -> (r: Result<
        (),
        DbError,
    >)
        requires
            old(store).wf(),
        ensures
            final(store).wf(),
            r is Err <==> old(store)@.cameras.len() > 0 && kind.range_at(now).0 > kind.range_at(
                now,
            ).1,
            r is Err ==> r == Err::<(), DbError>(DbError::Conflict) && final(store)@ == old(
                store,
            )@,
            r is Ok ==> final(store)@ == old(store)@.queue_all(kind, now),
            final(store)@ == old(store)@.apply(Op::QueueAll { kind, now }),
    {
        let (range_start, range_end) = kind.range(now);
        if store.cameras.len() > 0 && range_start > range_end {
            return Err(DbError::Conflict);
        }
        let mut rows: Vec<ScanPending> = Vec::new();
        let mut i: usize = 0;
        while i < store.cameras.len()
            invariant
                i <= store.cameras.len(),
                rows@.len() == i,
                (range_start, range_end) == kind.range_at(now),
                forall|j: int|
                    0 <= j < i ==> (#[trigger] rows@[j]) == kind.pending_at(
                        store.cameras@[j].id,
                        now,
                    ),
            decreases store.cameras.len() - i,
        {
            rows.push(
                ScanPending {
                    camera_id: store.cameras[i].id,
                    kind: ScanKind::from(kind),
                    range_start,
                    range_end,
                },
            );
            i += 1;
        }
        store.pending = rows;
        proof {
            let before = old(store)@;
            assert(store@.pending =~= before.queue_all(kind, now).pending);
            assert(store@ == before.queue_all(kind, now));
            lemma_queue_all_wf(before.cameras, before.next_camera_id, store@.pending);
        }
        Ok(())
    }
}

impl Store {
    /// Finds the first queued scan that can start.
    fn first_pending(&self) -> (r: Option<usize>)
        ensures
            match r {
                Some(k) => self@.next_pending() == Some(k as int) && self@.pending_eligible(
                    k as int,
                ),
                None => self@.next_pending() is None,
            },
    {
        let mut k: usize = 0;
        while k < self.pending.len()
            invariant
                k <= self.pending.len(),
                forall|j: int| 0 <= j < k ==> !self@.pending_eligible(j),
            decreases self.pending.len() - k,
        {
            if self.find_active(self.pending[k].camera_id).is_none() {
                proof {
                    assert(self@.pending_eligible(k as int));
                    self@.lemma_first_pending(0);
                }
                return Some(k);
            }
            k += 1;
        }
        proof {
            self@.lemma_first_pending(0);
        }
        None
    }

    /// Finds the first completed scan that can start again.
    fn first_retry(&self) -> (r: Option<usize>)
        ensures
            match r {
                Some(k) => self@.next_retry() == Some(k as int) && self@.retry_eligible(k as int),
                None => self@.next_retry() is None,
            },
    {
        let mut k: usize = 0;
        while k < self.completed.len()
            invariant
                k <= self.completed.len(),
                forall|j: int| 0 <= j < k ==> !self@.retry_eligible(j),
            decreases self.completed.len() - k,
        {
            if self.completed[k].retry_pending && self.find_active(
                self.completed[k].camera_id,
            ).is_none() {
                proof {
                    assert(self@.retry_eligible(k as int));
                    self@.lemma_first_retry(0);
                }
                return Some(k);
            }
            k += 1;
        }
        proof {
            self@.lemma_first_retry(0);
        }
        None
    }

    /// Starts the queued scan at `k`.
    fn start_pending(&mut self, k: usize, now: i64) -> (actor: ScanActor)
        requires
            old(self).wf(),
            old(self)@.pending_eligible(k as int),
        ensures
            final(self).wf(),
            final(self)@ == old(self)@.start_pending(k as int, now),
            actor.is_fresh(old(self)@.activation(old(self)@.pending[k as int], now)),
            final(self)@.is_active(actor.camera_id),
    {
        let p = self.pending[k];
        let range = match p.kind {
            ScanKind::Full => ScanRange { start: SCAN_EPOCH, end: now },
            ScanKind::Cursor => {
                assert(camera_ids(self@.cameras).contains(
                    self@.pending[k as int].camera_id,
                ));
                let c = self.find_camera(p.camera_id).unwrap();
                ScanRange { start: self.cameras[c].scan_cursor, end: now }
            },
            ScanKind::Manual => ScanRange { start: p.range_start, end: p.range_end },
        };
        let actor = match p.kind {
            ScanKind::Full => ScanActor::full(p.camera_id, now),
            ScanKind::Cursor => ScanActor::cursor(
                ScanCamera { id: p.camera_id, scan_cursor: range.start },
                now,
            ),
            ScanKind::Manual => ScanActor::manual(p.camera_id, range, now),
        };
        let row = ScanActive {
            camera_id: p.camera_id,
            kind: p.kind,
            range_start: range.start,
            range_end: range.end,
            started_at: now,
            range_cursor: range.end,
            percent: 0,
            upserted: 0,
            deleted: 0,
        };
        self.pending.remove(k);
        self.active.push(row);
        proof {
            assert(self@ == old(self)@.start_pending(k as int, now));
            old(self)@.lemma_start_pending(k as int, now);
        }
        actor
    }

    /// Starts the completed scan at `k` again.
    fn start_retry(&mut self, k: usize, now: i64) -> (actor: ScanActor)
        requires
            old(self).wf(),
            old(self)@.retry_eligible(k as int),
        ensures
            final(self).wf(),
            final(self)@ == old(self)@.start_retry(k as int, now),
            actor.is_fresh(StoreView::reactivation(old(self)@.completed[k as int], now)),
            final(self)@.is_active(actor.camera_id),
    {
        let actor = ScanActor::from_completed(&self.completed[k], now);
        let row = ScanActive {
            camera_id: actor.camera_id,
            kind: actor.kind,
            range_start: actor.range.start,
            range_end: actor.range.end,
            started_at: now,
            range_cursor: actor.range.end,
            percent: 0,
            upserted: 0,
            deleted: 0,
        };
        let mut c = self.completed.remove(k);
        c.retry_pending = false;
        c.can_retry = false;
        self.completed.insert(k, c);
        self.active.push(row);
        proof {
            assert(c == StoreView::picked_up(old(self)@.completed[k as int]));
            assert(self@.completed =~= old(self)@.completed.update(k as int, c));
            assert(self@ == old(self)@.start_retry(k as int, now));
            old(self)@.lemma_start_retry(k as int, now);
        }
        actor
    }
}

impl ScanActor {
    /// Starts the next scan that can start, at `now`, and returns its actor;
    /// `None` when the store is idle. In one step the request leaves the
    /// queue (or the completed scan gives up its retry) and the run joins the
    /// running scans, so no camera ever has two.
    pub fn next(store: &mut Store, now: i64) -> (r: Option<ScanActor>)
        requires
            old(store).wf(),
        ensures
            final(store).wf(),
            match old(store)@.next(now) {
                Some((row, after)) => r is Some && r->0.is_fresh(row) && final(store)@ == after,
                None => r is None && final(store)@ == old(store)@,
            },
            r is None <==> old(store)@.idle(),
            final(store)@ == old(store)@.apply(Op::Next { now }),
            r matches Some(a) ==> !old(store)@.is_active(a.camera_id) && final(store)@.is_active(
                a.camera_id,
            ),
    {
        if let Some(k) = store.first_pending() {
            return Some(store.start_pending(k, now));
        }
        if let Some(k) = store.first_retry() {
            return Some(store.start_retry(k, now));
        }
        None
    }
}

impl Store {
    /// Moves the scan cursor of the camera up to `cursor`.
    fn ratchet(&mut self, camera_id: i64, cursor: Option<i64>)
        requires
            old(self).wf(),
        ensures
            final(self)@ == (StoreView {
                cameras: old(self)@.ratchet(camera_id, cursor),
                ..old(self)@
            }),
    {
        if let Some(c) = cursor {
            if let Some(k) = self.find_camera(camera_id) {
                if self.cameras[k].scan_cursor < c {
                    let mut rec = self.cameras.remove(k);
                    rec.scan_cursor = c;
                    self.cameras.insert(k, rec);
                }
            }
        }
        proof {
            let before = old(self)@;
            let want = before.ratchet(camera_id, cursor);
            assert(self@.cameras.len() == want.len());
            assert forall|i: int| 0 <= i < want.len() implies self@.cameras[i] == want[i] by {
                if before.cameras[i].id == camera_id {
                    let k = before.camera_index(camera_id);
                    if i < k {
                        assert(before.cameras[i].id < before.cameras[k].id);
                    }
                    if k < i {
                        assert(before.cameras[k].id < before.cameras[i].id);
                    }
                }
            }
            assert(self@.cameras =~= want);
        }
    }

    /// Takes the scan of the camera out of the running scans.
    fn deactivate(&mut self, camera_id: i64) -> (row: Option<ScanActive>)
        requires
            exclusive(old(self)@.active),
        ensures
            final(self)@ == (StoreView {
                active: old(self)@.active.filter(|a: ScanActive| a.camera_id != camera_id),
                ..old(self)@
            }),
            row is Some <==> old(self)@.is_active(camera_id),
            row matches Some(r) ==> r == old(self)@.active[old(self)@.active_index(camera_id)],
    {
        let ghost keep = |a: ScanActive| a.camera_id != camera_id;
        match self.find_active(camera_id) {
            Some(k) => {
                proof {
                    let i = self@.active_index(camera_id);
                    if i < k {
                        assert(self@.active[i].camera_id != self@.active[k as int].camera_id);
                    }
                    if k < i {
                        assert(self@.active[k as int].camera_id != self@.active[i].camera_id);
                    }
                    assert forall|j: int| 0 <= j < self@.active.len() && j != k implies keep(
                        #[trigger] self@.active[j],
                    ) by {
                        if j < k {
                            assert(self@.active[j].camera_id != self@.active[k as int].camera_id);
                        } else {
                            assert(self@.active[k as int].camera_id != self@.active[j].camera_id);
                        }
                    }
                    lemma_filter_one(self@.active, keep, k as int);
                }
                let row = self.active.remove(k);
                assert(self@.active == old(self)@.active.filter(keep));
                Some(row)
            },
            None => {
                proof {
                    lemma_filter_all(self@.active, keep);
                }
                assert(self@.active == old(self)@.active.filter(keep));
                None
            },
        }
    }
}

impl ScanActor {
    /// Records the progress of this run in its row among the running scans:
    /// the start of the chunk that was scanned last, the percent done and the
    /// totals so far.
    pub fn update_status(
        &self,
        store: &mut Store,
        range_cursor: i64,
        percent: u8,
        upserted: u64,
        deleted: u64,
    )
        requires
            old(store).wf(),
        ensures
            final(store).wf(),
            final(store)@ == old(store)@.progress(
                self.camera_id,
                range_cursor,
                percent,
                upserted,
                deleted,
            ),
            final(store)@ == old(store)@.apply(
                Op::Progress { camera_id: self.camera_id, range_cursor, percent, upserted, deleted },
            ),
    {
        if let Some(k) = store.find_active(self.camera_id) {
            let mut row = store.active[k];
            row.range_cursor = range_cursor;
            row.percent = percent;
            row.upserted = upserted;
            row.deleted = deleted;
            store.active.set(k, row);
        }
        proof {
            let before = old(store)@;
            let want = before.progress(self.camera_id, range_cursor, percent, upserted, deleted);
            assert forall|i: int| 0 <= i < want.active.len() implies store@.active[i]
                == want.active[i] by {
                if before.active[i].camera_id == self.camera_id {
                    let k = before.active_index(self.camera_id);
                    if i < k {
                        assert(before.active[i].camera_id != before.active[k].camera_id);
                    }
                    if k < i {
                        assert(before.active[k].camera_id != before.active[i].camera_id);
                    }
                }
            }
            assert(store@.active =~= want.active);
            assert(store@ == want);
            lemma_progress(before.active, want.active, camera_ids(before.cameras));
        }
    }

    /// Ends this run at `now`: writes it to the history if it is one to keep,
    /// takes it out of the running scans, and moves the scan cursor of its
    /// camera up to what the run confirmed; the cursor never moves back.
    ///
    /// Fails with `Full`, changing nothing, when the run is to be written
    /// and the history has no id left.
    pub fn end(self, store: &mut Store, now: i64) -> (r: Result<(), DbError>)
        requires
            old(store).wf(),
        ensures
            final(store).wf(),
            r == Err::<(), DbError>(DbError::Full) <==> old(store)@.saves(self)
                && old(store)@.next_completed_id == i64::MAX,
            r is Err ==> r == Err::<(), DbError>(DbError::Full) && final(store)@ == old(store)@,
            r is Ok ==> final(store)@ == old(store)@.finish(self, now),
            final(store)@ == old(store)@.apply(Op::End { actor: self, now }),
            r is Ok ==> !final(store)@.is_active(self.camera_id),
            final(store)@.cameras.len() == old(store)@.cameras.len(),
            forall|i: int|
                0 <= i < old(store)@.cameras.len() ==> (#[trigger] final(store)@.cameras[i]).id
                    == old(store)@.cameras[i].id && final(store)@.cameras[i].scan_cursor
                    >= old(store)@.cameras[i].scan_cursor,
    {
        let keep = self.should_save();
        let running = store.find_active(self.camera_id).is_some();
        if keep && running && store.next_completed_id == i64::MAX {
            return Err(DbError::Full);
        }
        let duration = self.duration(now);
        let success = self.success();
        let cursor = self.should_update_scan_cursor();
        let camera_id = self.camera_id;
        let ghost before = store@;
        let ghost actor = self;
        proof {
            before.lemma_finish(actor, now);
        }
        store.ratchet(camera_id, cursor);
        let row = store.deactivate(camera_id);
        if keep {
            if let Some(row) = row {
                let done = ScanCompleted {
                    id: store.next_completed_id,
                    camera_id: row.camera_id,
                    kind: row.kind,
                    range_start: row.range_start,
                    range_end: row.range_end,
                    started_at: row.started_at,
                    range_cursor: row.range_cursor,
                    upserted: row.upserted,
                    deleted: row.deleted,
                    percent: row.percent,
                    duration,
                    success,
                    error: self.error,
                    can_retry: !success,
                    retry_pending: false,
                };
                store.completed.push(done);
                store.next_completed_id = store.next_completed_id + 1;
            }
        }
        assert(store@ == before.finish(actor, now));
        Ok(())
    }
}

impl Store {
    /// Finds the completed scan with this id, and says where the model puts it.
    fn locate_completed(&self, id: i64) -> (r: Option<usize>)
        requires
            self.wf(),
        ensures
            r is Some <==> self@.has_completed(id),
            r matches Some(k) ==> k == self@.completed_index(id) && k < self@.completed.len(),
    {
        let r = self.find_completed(id);
        proof {
            if let Some(k) = r {
                let i = self@.completed_index(id);
                if i < k {
                    assert(self@.completed[i].id < self@.completed[k as int].id);
                }
                if k < i {
                    assert(self@.completed[k as int].id < self@.completed[i].id);
                }
            }
        }
        r
    }
}

impl ScanCompleted {
    /// The completed scan with this id; `NotFound` when there is none.
    pub fn find(store: &Store, id: i64) -> (r: Result<ScanCompleted, DbError>)
        requires
            store.wf(),
        ensures
            r is Ok <==> store@.has_completed(id),
            r matches Ok(c) ==> c == store@.completed[store@.completed_index(id)],
            r matches Err(e) ==> e == DbError::NotFound,
    {
        match store.locate_completed(id) {
            Some(k) => Ok(store.completed[k].clone()),
            None => Err(DbError::NotFound),
        }
    }

    /// Asks for the completed scan with this id to run again. It is picked up
    /// when no scan of its camera is running.
    ///
    /// Fails with `NotFound`, changing nothing, when there is no such scan or
    /// it does not allow a retry.
    pub fn retry_db(store: &mut Store, id: i64) -> (r: Result<(), DbError>)
        requires
            old(store).wf(),
        ensures
            final(store).wf(),
            r is Ok <==> old(store)@.can_retry(id),
            r is Ok ==> final(store)@ == old(store)@.retry(id),
            final(store)@ == old(store)@.apply(Op::Retry { id }),
            r is Err ==> r == Err::<(), DbError>(DbError::NotFound) && final(store)@ == old(
                store,
            )@,
    {
        match store.locate_completed(id) {
            Some(k) => {
                if !store.completed[k].can_retry {
                    return Err(DbError::NotFound);
                }
                let mut c = store.completed.remove(k);
                c.retry_pending = true;
                store.completed.insert(k, c);
                proof {
                    let before = old(store)@;
                    assert(store@.completed =~= before.completed.update(k as int, c));
                    assert(store@ == before.retry(id));
                    lemma_completed_update(
                        before.completed,
                        camera_ids(before.cameras),
                        before.next_completed_id,
                        k as int,
                        c,
                    );
                }
                Ok(())
            },
            None => Err(DbError::NotFound),
        }
    }
}

impl ScanPending {
    /// The queued scans, oldest request first.
    pub fn list(store: &Store) -> (r: Vec<ScanPending>)
        ensures
            r@ == store@.pending,
    {
        let mut out: Vec<ScanPending> = Vec::new();
        let mut i: usize = 0;
        while i < store.pending.len()
            invariant
                i <= store.pending.len(),
                out@ == store.pending@.take(i as int),
            decreases store.pending.len() - i,
        {
            out.push(store.pending[i]);
            assert(store.pending@.take(i + 1) =~= store.pending@.take(i as int).push(
                store.pending@[i as int],
            ));
            i += 1;
        }
        assert(store.pending@.take(i as int) =~= store.pending@);
        out
    }
}

impl ScanActive {
    /// The running scans, in the order in which they started.
    pub fn list(store: &Store) -> (r: Vec<ScanActive>)
        ensures
            r@ == store@.active,
    {
        let mut out: Vec<ScanActive> = Vec::new();
        let mut i: usize = 0;
        while i < store.active.len()
            invariant
                i <= store.active.len(),
                out@ == store.active@.take(i as int),
            decreases store.active.len() - i,
        {
            out.push(store.active[i]);
            assert(store.active@.take(i + 1) =~= store.active@.take(i as int).push(
                store.active@[i as int],
            ));
            i += 1;
        }
        assert(store.active@.take(i as int) =~= store.active@);
        out
    }

    /// Removes every running scan. The store does this once when the process
    /// starts: a scan that was running when the process stopped is gone, and
    /// it is not queued again.
    pub fn clear(store: &mut Store)
        requires
            old(store).wf(),
        ensures
            final(store).wf(),
            final(store)@ == (StoreView { active: Seq::empty(), ..old(store)@ }),
            final(store)@ == old(store)@.apply(Op::Clear),
    {
        store.active = Vec::new();
        assert(store@.cameras == old(store)@.cameras);
    }
}

} // verus!
