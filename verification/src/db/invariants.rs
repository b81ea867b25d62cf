//! Why the steps of a scan keep the store valid.

use crate::db::{
    active_in, active_wf, camera_ids, cameras_wf, completed_wf, lemma_same_ids, pending_wf,
    StoreView,
};
use crate::models::{CameraRecord, ScanActive, ScanCompleted, ScanPending};
use crate::scan::ScanActor;
use crate::seqs::{lemma_filter_all, lemma_filter_member, lemma_filter_none, lemma_filter_pairwise};
use vstd::prelude::*;

verus! {

/// Queueing a valid row keeps the queue valid.
pub proof fn lemma_queue_wf(pending: Seq<ScanPending>, ids: Set<i64>, row: ScanPending)
    requires
        pending_wf(pending, ids),
        ids.contains(row.camera_id),
        row.range_start <= row.range_end,
    ensures
        pending_wf(pending.filter(|p: ScanPending| p.camera_id != row.camera_id).push(row), ids),
{
    let keep = |p: ScanPending| p.camera_id != row.camera_id;
    let kept = pending.filter(keep);
    let after = kept.push(row);
    lemma_filter_pairwise(pending, keep, |a: ScanPending, b: ScanPending| a.camera_id != b.camera_id);
    assert forall|i: int| 0 <= i < after.len() implies ids.contains(
        (#[trigger] after[i]).camera_id,
    ) && after[i].range_start <= after[i].range_end by {
        if i < kept.len() {
            lemma_filter_member(pending, keep, i);
            let j = choose|j: int| 0 <= j < pending.len() && #[trigger] pending[j] == kept[i];
            assert(ids.contains(pending[j].camera_id));
        }
    }
    assert forall|i: int, j: int|
        #![trigger after[i], after[j]]
        0 <= i < j < after.len() implies after[i].camera_id != after[j].camera_id by {
        if j < kept.len() {
            assert(after[i] == kept[i] && after[j] == kept[j]);
        } else {
            lemma_filter_member(pending, keep, i);
        }
    }
}

/// One ordered request per camera, in the order of the cameras, is a valid
/// queue.
pub proof fn lemma_queue_all_wf(
    cameras: Seq<CameraRecord>,
    next_id: int,
    pending: Seq<ScanPending>,
)
    requires
        cameras_wf(cameras, next_id),
        pending.len() == cameras.len(),
        forall|i: int|
            0 <= i < pending.len() ==> (#[trigger] pending[i]).camera_id == cameras[i].id
                && pending[i].range_start <= pending[i].range_end,
    ensures
        pending_wf(pending, camera_ids(cameras)),
{
    assert forall|i: int, j: int|
        #![trigger pending[i], pending[j]]
        0 <= i < j < pending.len() implies pending[i].camera_id != pending[j].camera_id by {
        assert(cameras[i].id < cameras[j].id);
    }
    assert forall|i: int| 0 <= i < pending.len() implies camera_ids(cameras).contains(
        (#[trigger] pending[i]).camera_id,
    ) by {
        assert(cameras[i].id == pending[i].camera_id);
    }
}

/// Taking a scan out of the queue keeps the queue valid.
pub proof fn lemma_pending_remove(pending: Seq<ScanPending>, ids: Set<i64>, k: int)
    requires
        pending_wf(pending, ids),
        0 <= k < pending.len(),
    ensures
        pending_wf(pending.remove(k), ids),
{
    let after = pending.remove(k);
    assert forall|i: int, j: int|
        #![trigger after[i], after[j]]
        0 <= i < j < after.len() implies after[i].camera_id != after[j].camera_id by {
        let ii = if i < k { i } else { i + 1 };
        let jj = if j < k { j } else { j + 1 };
        assert(after[i] == pending[ii]);
        assert(after[j] == pending[jj]);
    }
    assert forall|i: int| 0 <= i < after.len() implies ids.contains(
        (#[trigger] after[i]).camera_id,
    ) && after[i].range_start <= after[i].range_end by {
        let ii = if i < k { i } else { i + 1 };
        assert(after[i] == pending[ii]);
    }
}

/// Starting a run on a camera that exists and has none keeps the running
/// scans valid.
pub proof fn lemma_active_push(active: Seq<ScanActive>, ids: Set<i64>, row: ScanActive)
    requires
        active_wf(active, ids),
        ids.contains(row.camera_id),
        !active_in(active, row.camera_id),
    ensures
        active_wf(active.push(row), ids),
        active_in(active.push(row), row.camera_id),
{
    let after = active.push(row);
    assert forall|i: int, j: int|
        #![trigger after[i], after[j]]
        0 <= i < j < after.len() implies after[i].camera_id != after[j].camera_id by {
        if j < active.len() {
            assert(after[i] == active[i] && after[j] == active[j]);
        } else {
            assert(after[i] == active[i]);
        }
    }
    assert forall|i: int| 0 <= i < after.len() implies ids.contains(
        (#[trigger] after[i]).camera_id,
    ) by {
        if i < active.len() {
            assert(after[i] == active[i]);
        }
    }
    assert(after[active.len() as int].camera_id == row.camera_id);
}

/// Changing a completed scan but for its id and camera keeps the history
/// valid.
pub proof fn lemma_completed_update(
    completed: Seq<ScanCompleted>,
    ids: Set<i64>,
    next_id: int,
    k: int,
    c: ScanCompleted,
)
    requires
        completed_wf(completed, ids, next_id),
        0 <= k < completed.len(),
        c.id == completed[k].id,
        c.camera_id == completed[k].camera_id,
    ensures
        completed_wf(completed.update(k, c), ids, next_id),
{
    let after = completed.update(k, c);
    assert forall|i: int| 0 <= i < after.len() implies 0 < (#[trigger] after[i]).id < next_id
        && ids.contains(after[i].camera_id) by {
        assert(after[i].id == completed[i].id);
        assert(after[i].camera_id == completed[i].camera_id);
    }
    assert forall|i: int, j: int|
        #![trigger after[i], after[j]]
        0 <= i < j < after.len() implies after[i].id < after[j].id by {
        assert(after[i].id == completed[i].id);
        assert(after[j].id == completed[j].id);
    }
}

/// Taking the scan of one camera out of the running scans keeps them valid.
pub proof fn lemma_active_without(active: Seq<ScanActive>, ids: Set<i64>, camera_id: i64)
    requires
        active_wf(active, ids),
    ensures
        active_wf(active.filter(|a: ScanActive| a.camera_id != camera_id), ids),
        !active_in(active.filter(|a: ScanActive| a.camera_id != camera_id), camera_id),
{
    let keep = |a: ScanActive| a.camera_id != camera_id;
    let kept = active.filter(keep);
    lemma_filter_pairwise(active, keep, |a: ScanActive, b: ScanActive| a.camera_id != b.camera_id);
    assert forall|i: int| 0 <= i < kept.len() implies ids.contains((#[trigger] kept[i]).camera_id)
        && kept[i].camera_id != camera_id by {
        lemma_filter_member(active, keep, i);
        let j = choose|j: int| 0 <= j < active.len() && #[trigger] active[j] == kept[i];
        assert(ids.contains(active[j].camera_id));
    }
}

/// Adding a row with the next id to the history keeps it valid.
pub proof fn lemma_completed_push(
    completed: Seq<ScanCompleted>,
    ids: Set<i64>,
    next_id: int,
    row: ScanCompleted,
)
    requires
        completed_wf(completed, ids, next_id),
        next_id < i64::MAX,
        row.id == next_id,
        ids.contains(row.camera_id),
    ensures
        completed_wf(completed.push(row), ids, next_id + 1),
{
    let after = completed.push(row);
    assert forall|i: int| 0 <= i < after.len() implies 0 < (#[trigger] after[i]).id < next_id + 1
        && ids.contains(after[i].camera_id) by {
        if i < completed.len() {
            assert(after[i] == completed[i]);
        }
    }
    assert forall|i: int, j: int|
        #![trigger after[i], after[j]]
        0 <= i < j < after.len() implies after[i].id < after[j].id by {
        assert(after[i] == completed[i]);
        if j < completed.len() {
            assert(after[j] == completed[j]);
        }
    }
}

/// Recording progress keeps the running scans valid.
pub proof fn lemma_progress(before: Seq<ScanActive>, after: Seq<ScanActive>, ids: Set<i64>)
    requires
        active_wf(before, ids),
        after.len() == before.len(),
        forall|i: int| 0 <= i < before.len() ==> (#[trigger] after[i]).camera_id == before[i].camera_id,
    ensures
        active_wf(after, ids),
{
    assert forall|i: int, j: int|
        #![trigger after[i], after[j]]
        0 <= i < j < after.len() implies after[i].camera_id != after[j].camera_id by {
        assert(after[i].camera_id == before[i].camera_id);
        assert(after[j].camera_id == before[j].camera_id);
    }
    assert forall|i: int| 0 <= i < after.len() implies ids.contains(
        (#[trigger] after[i]).camera_id,
    ) by {
        assert(after[i].camera_id == before[i].camera_id);
    }
}

impl StoreView {
    /// The first queued scan that can start is one, and none before it can.
    pub proof fn lemma_first_pending(self, from: int)
        requires
            0 <= from <= self.pending.len(),
        ensures
            from <= self.first_pending_from(from) <= self.pending.len(),
            self.first_pending_from(from) < self.pending.len() ==> self.pending_eligible(
                self.first_pending_from(from),
            ),
            forall|j: int| from <= j < self.first_pending_from(from) ==> !self.pending_eligible(j),
        decreases self.pending.len() - from,
    {
        if from < self.pending.len() && !self.pending_eligible(from) {
            self.lemma_first_pending(from + 1);
        }
    }

    /// The first completed scan that can start again is one, and none before
    /// it can.
    pub proof fn lemma_first_retry(self, from: int)
        requires
            0 <= from <= self.completed.len(),
        ensures
            from <= self.first_retry_from(from) <= self.completed.len(),
            self.first_retry_from(from) < self.completed.len() ==> self.retry_eligible(
                self.first_retry_from(from),
            ),
            forall|j: int| from <= j < self.first_retry_from(from) ==> !self.retry_eligible(j),
        decreases self.completed.len() - from,
    {
        if from < self.completed.len() && !self.retry_eligible(from) {
            self.lemma_first_retry(from + 1);
        }
    }

    /// The store is idle exactly when no queued scan and no retry can start.
    pub proof fn lemma_idle(self)
        ensures
            self.idle() <==> (forall|i: int| !self.pending_eligible(i)) && (forall|i: int|
                !self.retry_eligible(i)),
    {
        self.lemma_first_pending(0);
        self.lemma_first_retry(0);
    }

    /// Starting a queued scan that can start keeps the store valid.
    pub proof fn lemma_start_pending(self, i: int, now: i64)
        requires
            self.wf(),
            self.pending_eligible(i),
        ensures
            self.start_pending(i, now).wf(),
            self.start_pending(i, now).is_active(self.pending[i].camera_id),
    {
        let ids = camera_ids(self.cameras);
        let row = self.activation(self.pending[i], now);
        lemma_pending_remove(self.pending, ids, i);
        assert(ids.contains(self.pending[i].camera_id));
        lemma_active_push(self.active, ids, row);
    }

    /// Starting again a completed scan that can keeps the store valid.
    pub proof fn lemma_start_retry(self, i: int, now: i64)
        requires
            self.wf(),
            self.retry_eligible(i),
        ensures
            self.start_retry(i, now).wf(),
            self.start_retry(i, now).is_active(self.completed[i].camera_id),
    {
        let ids = camera_ids(self.cameras);
        let row = Self::reactivation(self.completed[i], now);
        let c = Self::picked_up(self.completed[i]);
        lemma_completed_update(self.completed, ids, self.next_completed_id, i, c);
        assert(ids.contains(self.completed[i].camera_id));
        lemma_active_push(self.active, ids, row);
    }

    /// A start takes one from the scans that wait.
    pub proof fn lemma_next_waits(self, now: i64)
        ensures
            self.next(now) matches Some((_, after)) ==> after.waiting() < self.waiting(),
    {
        self.lemma_first_pending(0);
        self.lemma_first_retry(0);
        match self.next_pending() {
            Some(i) => {
                assert(self.pending_eligible(i));
            },
            None => match self.next_retry() {
                Some(i) => {
                    assert(self.retry_eligible(i));
                    let asked = |c: ScanCompleted| c.retry_pending;
                    let s = self.completed;
                    let t = s.update(i, Self::picked_up(s[i]));
                    let a = s.take(i);
                    let b = s.skip(i + 1);
                    assert(s =~= a + seq![s[i]] + b);
                    assert(t =~= a + seq![t[i]] + b);
                    Seq::filter_distributes_over_add(a + seq![s[i]], b, asked);
                    Seq::filter_distributes_over_add(a, seq![s[i]], asked);
                    Seq::filter_distributes_over_add(a + seq![t[i]], b, asked);
                    Seq::filter_distributes_over_add(a, seq![t[i]], asked);
                    lemma_filter_all(seq![s[i]], asked);
                    lemma_filter_none(seq![t[i]], asked);
                },
                None => {},
            },
        }
    }

    /// A start stops no scan that is running.
    pub proof fn lemma_next_keeps_active(self, now: i64, camera_id: i64)
        requires
            self.is_active(camera_id),
        ensures
            self.next(now) matches Some((_, after)) ==> after.is_active(camera_id),
    {
        let k = choose|k: int|
            0 <= k < self.active.len() && (#[trigger] self.active[k]).camera_id == camera_id;
        match self.next(now) {
            Some((row, after)) => {
                assert(after.active == self.active.push(row));
                assert(after.active[k] == self.active[k]);
            },
            None => {},
        }
    }

    /// The end of a run keeps the store valid, and moves no scan cursor back.
    pub proof fn lemma_finish(self, actor: ScanActor, now: i64)
        requires
            self.wf(),
            !(self.saves(actor) && self.next_completed_id == i64::MAX),
        ensures
            self.finish(actor, now).wf(),
            !self.finish(actor, now).is_active(actor.camera_id),
            self.finish(actor, now).cameras.len() == self.cameras.len(),
            forall|i: int|
                0 <= i < self.cameras.len() ==> (#[trigger] self.finish(actor, now).cameras[i]).id
                    == self.cameras[i].id && self.finish(actor, now).cameras[i].scan_cursor
                    >= self.cameras[i].scan_cursor,
    {
        let after = self.finish(actor, now);
        let ids = camera_ids(self.cameras);
        lemma_same_ids(self.cameras, after.cameras, self.next_camera_id);
        lemma_active_without(self.active, ids, actor.camera_id);
        if self.saves(actor) {
            let k = self.active_index(actor.camera_id);
            let row = Self::completed_row(self.next_completed_id as i64, self.active[k], actor, now);
            lemma_completed_push(self.completed, ids, self.next_completed_id, row);
        }
    }
}

} // verus!
