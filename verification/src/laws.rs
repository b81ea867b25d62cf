//! What holds of the scheduler over every history of operations.

use crate::db::invariants::{
    lemma_completed_update, lemma_progress, lemma_queue_all_wf, lemma_queue_wf,
};
use crate::db::{camera_ids, StoreView};
use crate::models::{CameraRecord, ScanActive, ScanCompleted, ScanKind, ScanPending};
use crate::range::ScanRange;
use crate::scan::{ScanActor, ScanKindPending, SCAN_EPOCH};
use crate::seqs::{
    lemma_filter_all, lemma_filter_member, lemma_filter_none, lemma_filter_push,
    lemma_filter_twice,
};
use vstd::prelude::*;

verus! {

/// An operation on the queues of the scheduler, as the store performs it.
/// Each names one function of the library, which does to the store what
/// [`StoreView::apply`] says of the operation.
pub enum Op {
    /// A scan of one camera is queued.
    Queue { camera_id: i64, kind: ScanKindPending, now: i64 },
    /// A scan of every camera is queued.
    QueueAll { kind: ScanKindPending, now: i64 },
    /// The next scan that can start does.
    Next { now: i64 },
    /// A run records its progress.
    Progress { camera_id: i64, range_cursor: i64, percent: u8, upserted: u64, deleted: u64 },
    /// A run ends.
    End { actor: ScanActor, now: i64 },
    /// A retry of a completed scan is asked for.
    Retry { id: i64 },
    /// The process starts anew: the running scans are dropped.
    Clear,
    /// A camera is removed with all that belongs to it.
    Delete { camera_id: i64 },
}

impl StoreView {
    /// The store after `op`. An operation that the store refuses changes
    /// nothing.
    pub open spec fn apply(self, op: Op) -> StoreView {
        match op {
            Op::Queue { camera_id, kind, now } => if self.has_camera(camera_id) && kind.range_at(
                now,
            ).0 <= kind.range_at(now).1 {
                self.queue(kind.pending_at(camera_id, now))
            } else {
                self
            },
            Op::QueueAll { kind, now } => if self.cameras.len() > 0 && kind.range_at(now).0
                > kind.range_at(now).1 {
                self
            } else {
                self.queue_all(kind, now)
            },
            Op::Next { now } => match self.next(now) {
                Some((_, after)) => after,
                None => self,
            },
            Op::Progress { camera_id, range_cursor, percent, upserted, deleted } => self.progress(
                camera_id,
                range_cursor,
                percent,
                upserted,
                deleted,
            ),
            Op::End { actor, now } => if self.saves(actor) && self.next_completed_id == i64::MAX {
                self
            } else {
                self.finish(actor, now)
            },
            Op::Retry { id } => if self.can_retry(id) {
                self.retry(id)
            } else {
                self
            },
            Op::Clear => StoreView { active: Seq::empty(), ..self },
            Op::Delete { camera_id } => if self.has_camera(camera_id) {
                self.without_camera(camera_id)
            } else {
                self
            },
        }
    }

    /// The store after the operations `ops`, one after another.
    pub open spec fn apply_all(self, ops: Seq<Op>) -> StoreView
        decreases ops.len(),
    {
        if ops.len() == 0 {
            self
        } else {
            self.apply_all(ops.drop_last()).apply(ops.last())
        }
    }

    /// Every operation keeps a valid store valid.
    pub proof fn lemma_apply_wf(self, op: Op)
        requires
            self.wf(),
        ensures
            self.apply(op).wf(),
    {
        let ids = camera_ids(self.cameras);
        match op {
            Op::Queue { camera_id, kind, now } => {
                if self.has_camera(camera_id) && kind.range_at(now).0 <= kind.range_at(now).1 {
                    lemma_queue_wf(self.pending, ids, kind.pending_at(camera_id, now));
                }
            },
            Op::QueueAll { kind, now } => {
                if !(self.cameras.len() > 0 && kind.range_at(now).0 > kind.range_at(now).1) {
                    lemma_queue_all_wf(
                        self.cameras,
                        self.next_camera_id,
                        self.queue_all(kind, now).pending,
                    );
                }
            },
            Op::Next { now } => {
                self.lemma_first_pending(0);
                self.lemma_first_retry(0);
                match self.next_pending() {
                    Some(i) => {
                        self.lemma_start_pending(i, now);
                    },
                    None => match self.next_retry() {
                        Some(i) => {
                            self.lemma_start_retry(i, now);
                        },
                        None => {},
                    },
                }
            },
            Op::Progress { camera_id, range_cursor, percent, upserted, deleted } => {
                lemma_progress(
                    self.active,
                    self.progress(camera_id, range_cursor, percent, upserted, deleted).active,
                    ids,
                );
            },
            Op::End { actor, now } => {
                if !(self.saves(actor) && self.next_completed_id == i64::MAX) {
                    self.lemma_finish(actor, now);
                }
            },
            Op::Retry { id } => {
                if self.can_retry(id) {
                    let k = self.completed_index(id);
                    lemma_completed_update(
                        self.completed,
                        ids,
                        self.next_completed_id,
                        k,
                        ScanCompleted { retry_pending: true, ..self.completed[k] },
                    );
                }
            },
            Op::Clear => {},
            Op::Delete { camera_id } => {
                if self.has_camera(camera_id) {
                    self.lemma_without_camera(camera_id);
                }
            },
        }
    }

    /// Exclusivity: whatever operations a valid store goes through, in
    /// whatever order, it stays valid, and at no point are two scans running
    /// on one camera.
    pub proof fn lemma_exclusive_always(self, ops: Seq<Op>)
        requires
            self.wf(),
        ensures
            self.apply_all(ops).wf(),
            self.apply_all(ops).exclusive(),
            forall|i: int, j: int|
                0 <= i < j < self.apply_all(ops).active.len() ==> self.apply_all(
                    ops,
                ).active[i].camera_id != self.apply_all(ops).active[j].camera_id,
        decreases ops.len(),
    {
        if ops.len() > 0 {
            self.lemma_exclusive_always(ops.drop_last());
            self.apply_all(ops.drop_last()).lemma_apply_wf(ops.last());
        }
    }

    /// Last intent wins: after a scan is queued for a camera and then
    /// another, the store is as if only the second had been queued, and the
    /// queue holds one scan for the camera, the second.
    pub proof fn lemma_last_intent_wins(self, first: ScanPending, second: ScanPending)
        requires
            first.camera_id == second.camera_id,
        ensures
            self.queue(first).queue(second) == self.queue(second),
            self.queue(second).pending.filter(
                |p: ScanPending| p.camera_id == second.camera_id,
            ) == seq![second],
    {
        let c = second.camera_id;
        let other = |p: ScanPending| p.camera_id != c;
        let same = |p: ScanPending| p.camera_id == c;
        let kept = self.pending.filter(other);
        lemma_filter_push(kept, other, first);
        lemma_filter_twice(self.pending, other, other);
        crate::seqs::lemma_filter_same(self.pending, |x: ScanPending| other(x) && other(x), other);
        assert(kept.push(first).filter(other) == kept);
        lemma_filter_push(kept, same, second);
        lemma_filter_twice(self.pending, other, same);
        assert forall|i: int| 0 <= i < self.pending.len() implies !(|x: ScanPending|
            other(x) && same(x))(#[trigger] self.pending[i]) by {}
        lemma_filter_none(self.pending, |x: ScanPending| other(x) && same(x));
        assert(kept.filter(same).push(second) =~= seq![second]);
    }

    /// Cursor monotonicity: the end of a run, whatever its outcome and its
    /// range, removes no camera and moves no scan cursor back.
    pub proof fn lemma_cursor_never_back(self, actor: ScanActor, now: i64, i: int)
        requires
            0 <= i < self.cameras.len(),
        ensures
            self.apply(Op::End { actor, now }).cameras.len() == self.cameras.len(),
            self.apply(Op::End { actor, now }).cameras[i].id == self.cameras[i].id,
            self.apply(Op::End { actor, now }).cameras[i].scan_cursor >= self.cameras[i].scan_cursor,
    {
    }

    /// No operation of the scheduler adds a camera, and none moves the scan
    /// cursor of a camera back.
    pub proof fn lemma_apply_cursor(self, op: Op, id: i64)
        requires
            self.wf(),
            self.apply(op).has_camera(id),
        ensures
            self.has_camera(id),
            self.apply(op).camera(id).scan_cursor >= self.camera(id).scan_cursor,
    {
        let after = self.apply(op);
        self.lemma_apply_wf(op);
        let j = after.camera_index(id);
        after.lemma_camera_is(j);
        match op {
            Op::End { actor, now } => {
                if !(self.saves(actor) && self.next_completed_id == i64::MAX) {
                    assert(self.cameras[j].id == id);
                    self.lemma_camera_is(j);
                }
            },
            Op::Delete { camera_id } => {
                if self.has_camera(camera_id) {
                    let keep = |c: CameraRecord| c.id != camera_id;
                    lemma_filter_member(self.cameras, keep, j);
                    let k = choose|k: int|
                        0 <= k < self.cameras.len() && #[trigger] self.cameras[k]
                            == after.cameras[j];
                    self.lemma_camera_is(k);
                }
            },
            _ => {
                assert(after.cameras == self.cameras) by {
                    match op {
                        Op::Next { now } => {
                            self.lemma_first_pending(0);
                            self.lemma_first_retry(0);
                        },
                        _ => {},
                    }
                }
            },
        }
    }

    /// Cursor monotonicity, over every history: whatever operations a valid
    /// store goes through, a camera that is still there afterwards was there
    /// all along, and its scan cursor is where it was or further on.
    pub proof fn lemma_cursor_never_back_always(self, ops: Seq<Op>, id: i64)
        requires
            self.wf(),
            self.apply_all(ops).has_camera(id),
        ensures
            self.has_camera(id),
            self.apply_all(ops).camera(id).scan_cursor >= self.camera(id).scan_cursor,
        decreases ops.len(),
    {
        if ops.len() > 0 {
            let mid = self.apply_all(ops.drop_last());
            self.lemma_exclusive_always(ops.drop_last());
            mid.lemma_apply_cursor(ops.last(), id);
            self.lemma_cursor_never_back_always(ops.drop_last(), id);
        }
    }

    /// Starts stop no scan that is running.
    pub proof fn lemma_starts_keep_active(self, now: i64, n: nat, camera_id: i64)
        requires
            self.is_active(camera_id),
        ensures
            self.after_starts(now, n).is_active(camera_id),
        decreases n,
    {
        if n > 0 {
            self.lemma_next_keeps_active(now, camera_id);
            match self.next(now) {
                Some((_, after)) => {
                    after.lemma_starts_keep_active(now, (n - 1) as nat, camera_id);
                },
                None => {},
            }
        }
    }

    /// No queued scan that can start is passed over for long: the scan at
    /// place `i` of the queue is running once the scans before it that can
    /// start have started, after `i + 1` starts at the latest.
    pub proof fn lemma_eligible_starts(self, now: i64, i: int)
        requires
            self.wf(),
            self.pending_eligible(i),
        ensures
            self.after_starts(now, (i + 1) as nat).is_active(self.pending[i].camera_id),
        decreases i,
    {
        let camera_id = self.pending[i].camera_id;
        self.lemma_first_pending(0);
        let k = self.first_pending_from(0);
        assert(k <= i) by {
            if k > i {
                assert(!self.pending_eligible(i));
            }
        }
        let after = self.start_pending(k, now);
        assert(self.next(now) == Some((self.activation(self.pending[k], now), after)));
        self.lemma_start_pending(k, now);
        if k == i {
            after.lemma_starts_keep_active(now, i as nat, camera_id);
        } else {
            assert(after.pending[i - 1] == self.pending[i]);
            assert(self.pending[k].camera_id != self.pending[i].camera_id);
            assert(!after.is_active(camera_id)) by {
                if after.is_active(camera_id) {
                    let j = choose|j: int|
                        0 <= j < after.active.len() && (#[trigger] after.active[j]).camera_id
                            == camera_id;
                    if j < self.active.len() {
                        assert(self.active[j].camera_id == camera_id);
                    }
                }
            }
            assert(after.pending_eligible(i - 1));
            after.lemma_eligible_starts(now, i - 1);
        }
    }

    /// What a start leaves behind: the camera of the run that started has a
    /// running scan, and when the run came from the queue the camera has no
    /// queued scan left and the history is as it was.
    pub proof fn lemma_started(self, now: i64)
        requires
            self.wf(),
            self.next(now) is Some,
        ensures
            ({
                let (row, after) = self.next(now).unwrap();
                &&& after.wf()
                &&& after.is_active(row.camera_id)
                &&& !self.is_active(row.camera_id)
                &&& self.next_pending() is Some ==> !after.has_pending(row.camera_id)
                    && after.completed == self.completed && row.camera_id
                    == self.pending[self.next_pending().unwrap()].camera_id
            }),
    {
        self.lemma_first_pending(0);
        self.lemma_first_retry(0);
        match self.next_pending() {
            Some(k) => {
                self.lemma_start_pending(k, now);
                let after = self.start_pending(k, now);
                let camera_id = self.pending[k].camera_id;
                if after.has_pending(camera_id) {
                    let j = choose|j: int|
                        0 <= j < after.pending.len() && (#[trigger] after.pending[j]).camera_id
                            == camera_id;
                    let jj = if j < k {
                        j
                    } else {
                        j + 1
                    };
                    assert(after.pending[j] == self.pending[jj]);
                    if jj < k {
                        assert(self.pending[jj].camera_id != self.pending[k].camera_id);
                    } else {
                        assert(self.pending[k].camera_id != self.pending[jj].camera_id);
                    }
                }
            },
            None => {
                let k = self.next_retry().unwrap();
                self.lemma_start_retry(k, now);
            },
        }
    }

    /// The end of a full scan that ran without error, on a camera that has
    /// a running scan and no history yet, while the history has an id left:
    /// the history then holds one scan of the camera, a success without an
    /// error text; the camera has no running scan; and the queue is as it
    /// was.
    pub proof fn lemma_end_of_full_scan(self, actor: ScanActor, now: i64)
        requires
            self.wf(),
            self.is_active(actor.camera_id),
            actor.kind == ScanKind::Full,
            actor.spec_success(),
            self.next_completed_id < i64::MAX,
            forall|i: int|
                0 <= i < self.completed.len() ==> (#[trigger] self.completed[i]).camera_id
                    != actor.camera_id,
        ensures
            ({
                let done = self.apply(Op::End { actor, now });
                let of_camera = |c: ScanCompleted| c.camera_id == actor.camera_id;
                &&& done.wf()
                &&& done.completed.len() == self.completed.len() + 1
                &&& done.completed.drop_last() == self.completed
                &&& done.completed.filter(of_camera) == seq![done.completed.last()]
                &&& done.completed.last().camera_id == actor.camera_id
                &&& done.completed.last().success
                &&& done.completed.last().error@.len() == 0
                &&& !done.completed.last().can_retry
                &&& !done.is_active(actor.camera_id)
                &&& done.pending == self.pending
            }),
    {
        let done = self.apply(Op::End { actor, now });
        let of_camera = |c: ScanCompleted| c.camera_id == actor.camera_id;
        self.lemma_apply_wf(Op::End { actor, now });
        self.lemma_finish(actor, now);
        let k = self.active_index(actor.camera_id);
        assert(self.active[k].camera_id == actor.camera_id);
        assert(done.completed.drop_last() =~= self.completed);
        lemma_filter_none(self.completed, of_camera);
        lemma_filter_push(self.completed, of_camera, done.completed.last());
        assert(Seq::<ScanCompleted>::empty().push(done.completed.last()) =~= seq![
            done.completed.last(),
        ]);
    }

    /// When the history has no id left, the end of a run that is to be kept
    /// is refused and changes nothing: the run stays among the running scans
    /// and no scan is written twice or lost. With
    /// [`StoreView::lemma_end_of_full_scan`] this tells the outcome of the end
    /// of a full scan in every store.
    pub proof fn lemma_end_without_id(self, actor: ScanActor, now: i64)
        requires
            self.wf(),
            self.is_active(actor.camera_id),
            actor.kind == ScanKind::Full,
            self.next_completed_id == i64::MAX,
        ensures
            self.saves(actor),
            self.apply(Op::End { actor, now }) == self,
            self.apply(Op::End { actor, now }).is_active(actor.camera_id),
    {
    }

    /// One full scan, start to end: in a store with no queued and no running
    /// scan, a full scan is asked for a camera at `asked`, the epoch or
    /// later; the scan starts at `started`, is scanned without error, and
    /// ends at `ended`, while the history has an id left. Then exactly one
    /// scan went from the queue to the running scans, the run of that camera
    /// over everything up to `started`; nothing else could start from the
    /// queue; and at the end the history holds exactly one more scan, a
    /// success of that camera, with no scan running and none queued.
    pub proof fn lemma_full_scan_once(
        self,
        camera_id: i64,
        asked: i64,
        started: i64,
        actor: ScanActor,
        ended: i64,
    )
        requires
            self.wf(),
            self.has_camera(camera_id),
            self.pending.len() == 0,
            self.active.len() == 0,
            asked >= SCAN_EPOCH,
            self.next_completed_id < i64::MAX,
            actor.camera_id == camera_id,
            actor.kind == ScanKind::Full,
            actor.spec_success(),
        ensures
            ({
                let queued = self.apply(
                    Op::Queue { camera_id, kind: ScanKindPending::Full, now: asked },
                );
                let running = queued.apply(Op::Next { now: started });
                let done = running.apply(Op::End { actor, now: ended });
                let row = ScanActor::active_row(
                    camera_id,
                    ScanKind::Full,
                    ScanRange { start: SCAN_EPOCH, end: started },
                    started,
                );
                &&& queued.pending == seq![ScanKindPending::Full.pending_at(camera_id, asked)]
                &&& queued.next(started) == Some((row, running))
                &&& running.pending.len() == 0
                &&& running.active == seq![row]
                &&& running.completed == self.completed
                &&& running.next_pending() is None
                &&& done.completed.len() == self.completed.len() + 1
                &&& done.completed.drop_last() == self.completed
                &&& done.completed.last().camera_id == camera_id
                &&& done.completed.last().kind == ScanKind::Full
                &&& done.completed.last().success
                &&& done.completed.last().error@.len() == 0
                &&& done.active.len() == 0
                &&& done.pending.len() == 0
            }),
    {
        let pending = ScanKindPending::Full.pending_at(camera_id, asked);
        let queued = self.apply(Op::Queue { camera_id, kind: ScanKindPending::Full, now: asked });
        lemma_filter_all(self.pending, |p: ScanPending| p.camera_id != camera_id);
        assert(queued.pending =~= seq![pending]);
        self.lemma_apply_wf(Op::Queue { camera_id, kind: ScanKindPending::Full, now: asked });
        assert(!queued.is_active(camera_id));
        assert(queued.pending_eligible(0));
        queued.lemma_first_pending(0);
        let running = queued.apply(Op::Next { now: started });
        assert(running == queued.start_pending(0, started));
        assert(running.pending =~= Seq::<ScanPending>::empty());
        let row = queued.activation(pending, started);
        assert(running.active =~= seq![row]);
        running.lemma_first_pending(0);
        queued.lemma_start_pending(0, started);
        let done = running.apply(Op::End { actor, now: ended });
        running.lemma_finish(actor, ended);
        assert(running.active[0].camera_id == camera_id);
        let k = running.active_index(camera_id);
        assert(k == 0);
        assert(done.completed.drop_last() =~= self.completed);
        lemma_filter_none(running.active, |a: ScanActive| a.camera_id != camera_id);
    }

    /// Restart: when the process starts anew, the running scans are dropped
    /// and none of them is queued again; a camera that had no queued scan
    /// has neither a running nor a queued scan. A scan that is then asked
    /// for the camera, with a range in order, is queued as the one scan of
    /// the camera, behind what was queued; it can start, and it is running
    /// once the scans queued before it have started. When nothing else was
    /// queued, the next start is its.
    pub proof fn lemma_restart_then_queue(
        self,
        camera_id: i64,
        kind: ScanKindPending,
        asked: i64,
        started: i64,
    )
        requires
            self.wf(),
            self.has_camera(camera_id),
            !self.has_pending(camera_id),
            kind.range_at(asked).0 <= kind.range_at(asked).1,
        ensures
            ({
                let cleared = self.apply(Op::Clear);
                let queued = cleared.apply(Op::Queue { camera_id, kind, now: asked });
                &&& cleared.active.len() == 0
                &&& cleared.pending == self.pending
                &&& !cleared.is_active(camera_id)
                &&& !cleared.has_pending(camera_id)
                &&& queued.pending == self.pending.push(kind.pending_at(camera_id, asked))
                &&& queued.pending_eligible(self.pending.len() as int)
                &&& queued.after_starts(started, queued.pending.len()).is_active(camera_id)
                &&& self.pending.len() == 0 ==> queued.next(started) is Some && queued.next(
                    started,
                ).unwrap().0.camera_id == camera_id
            }),
    {
        let cleared = self.apply(Op::Clear);
        let queued = cleared.apply(Op::Queue { camera_id, kind, now: asked });
        self.lemma_apply_wf(Op::Clear);
        cleared.lemma_apply_wf(Op::Queue { camera_id, kind, now: asked });
        lemma_filter_all(self.pending, |p: ScanPending| p.camera_id != camera_id);
        let n = self.pending.len() as int;
        assert(queued.pending[n] == kind.pending_at(camera_id, asked));
        assert(queued.pending_eligible(n));
        queued.lemma_eligible_starts(started, n);
        if n == 0 {
            queued.lemma_first_pending(0);
        }
    }
}

} // verus!
