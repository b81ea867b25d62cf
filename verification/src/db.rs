//! The store: the tables of the scheduler and of the file index, held in
//! memory, with the rules that every operation keeps.

use crate::models::{CameraFile, CameraRecord, ScanActive, ScanCompleted, ScanPending};
use vstd::prelude::*;

pub mod camera;
pub mod file;
pub mod history;
pub mod invariants;
pub mod scan;
pub mod snapshot;

verus! {

/// The contents of a [`Store`] as sequences of rows, each table in the order
/// in which its rows were written.
pub struct StoreView {
    pub cameras: Seq<CameraRecord>,
    pub pending: Seq<ScanPending>,
    pub active: Seq<ScanActive>,
    pub completed: Seq<ScanCompleted>,
    pub files: Seq<CameraFile>,
    /// The id that the next camera gets.
    pub next_camera_id: int,
    /// The id that the next completed scan gets.
    pub next_completed_id: int,
}

/// Whether one of `cameras` has this id.
pub open spec fn camera_in(cameras: Seq<CameraRecord>, id: i64) -> bool {
    exists|i: int| 0 <= i < cameras.len() && (#[trigger] cameras[i]).id == id
}

/// The ids of `cameras`.
pub open spec fn camera_ids(cameras: Seq<CameraRecord>) -> Set<i64> {
    Set::new(|id: i64| camera_in(cameras, id))
}

/// Whether one of the queued scans is for this camera.
pub open spec fn pending_in(pending: Seq<ScanPending>, camera_id: i64) -> bool {
    exists|i: int| 0 <= i < pending.len() && (#[trigger] pending[i]).camera_id == camera_id
}

/// Whether one of the running scans is on this camera.
pub open spec fn active_in(active: Seq<ScanActive>, camera_id: i64) -> bool {
    exists|i: int| 0 <= i < active.len() && (#[trigger] active[i]).camera_id == camera_id
}

/// Camera ids are positive, below the next id, and rise along the table.
pub open spec fn cameras_wf(cameras: Seq<CameraRecord>, next_id: int) -> bool {
    &&& 1 <= next_id <= i64::MAX
    &&& forall|i: int| 0 <= i < cameras.len() ==> 0 < (#[trigger] cameras[i]).id < next_id
    &&& forall|i: int, j: int|
        #![trigger cameras[i], cameras[j]]
        0 <= i < j < cameras.len() ==> cameras[i].id < cameras[j].id
}

/// No two queued scans are for the same camera.
pub open spec fn one_intent(pending: Seq<ScanPending>) -> bool {
    forall|i: int, j: int|
        #![trigger pending[i], pending[j]]
        0 <= i < j < pending.len() ==> pending[i].camera_id != pending[j].camera_id
}

/// Queued scans are one per camera, for cameras among `ids`, over ranges
/// that do not end before they start.
pub open spec fn pending_wf(pending: Seq<ScanPending>, ids: Set<i64>) -> bool {
    &&& one_intent(pending)
    &&& forall|i: int|
        0 <= i < pending.len() ==> ids.contains((#[trigger] pending[i]).camera_id)
            && pending[i].range_start <= pending[i].range_end
}

/// No two running scans are on the same camera.
pub open spec fn exclusive(active: Seq<ScanActive>) -> bool {
    forall|i: int, j: int|
        #![trigger active[i], active[j]]
        0 <= i < j < active.len() ==> active[i].camera_id != active[j].camera_id
}

/// Running scans are one per camera, on cameras among `ids`.
pub open spec fn active_wf(active: Seq<ScanActive>, ids: Set<i64>) -> bool {
    &&& exclusive(active)
    &&& forall|i: int| 0 <= i < active.len() ==> ids.contains((#[trigger] active[i]).camera_id)
}

/// Completed scans have ids that are positive, below the next id and rising
/// along the table, and belong to cameras among `ids`.
pub open spec fn completed_wf(completed: Seq<ScanCompleted>, ids: Set<i64>, next_id: int) -> bool {
    &&& 1 <= next_id <= i64::MAX
    &&& forall|i: int|
        0 <= i < completed.len() ==> 0 < (#[trigger] completed[i]).id < next_id && ids.contains(
            completed[i].camera_id,
        )
    &&& forall|i: int, j: int|
        #![trigger completed[i], completed[j]]
        0 <= i < j < completed.len() ==> completed[i].id < completed[j].id
}

/// Files are in canonical order with no key twice, and belong to cameras
/// among `ids`.
pub open spec fn files_wf(files: Seq<CameraFile>, ids: Set<i64>) -> bool {
    &&& CameraFile::sorted(files)
    &&& forall|i: int| 0 <= i < files.len() ==> ids.contains((#[trigger] files[i]).camera_id)
}

/// Cameras changed in place, each keeping its id, are as valid as before and
/// have the same ids.
pub proof fn lemma_same_ids(a: Seq<CameraRecord>, b: Seq<CameraRecord>, next_id: int)
    requires
        a.len() == b.len(),
        forall|i: int| 0 <= i < a.len() ==> (#[trigger] a[i]).id == b[i].id,
    ensures
        camera_ids(a) == camera_ids(b),
        cameras_wf(a, next_id) ==> cameras_wf(b, next_id),
{
    assert forall|id: i64| camera_in(a, id) == camera_in(b, id) by {
        if camera_in(a, id) {
            let i = choose|i: int| 0 <= i < a.len() && (#[trigger] a[i]).id == id;
            assert(b[i].id == id);
        }
        if camera_in(b, id) {
            let i = choose|i: int| 0 <= i < b.len() && (#[trigger] b[i]).id == id;
            assert(a[i].id == id);
        }
    }
    assert(camera_ids(a) =~= camera_ids(b));
    if cameras_wf(a, next_id) {
        assert forall|i: int| 0 <= i < b.len() implies 0 < (#[trigger] b[i]).id < next_id by {
            assert(a[i].id == b[i].id);
        }
        assert forall|i: int, j: int|
            #![trigger b[i], b[j]]
            0 <= i < j < b.len() implies b[i].id < b[j].id by {
            assert(a[i].id == b[i].id && a[j].id == b[j].id);
        }
    }
}

impl StoreView {
    /// Whether a camera with this id exists.
    pub open spec fn has_camera(self, id: i64) -> bool {
        camera_in(self.cameras, id)
    }

    /// Whether a scan is queued for the camera.
    pub open spec fn has_pending(self, camera_id: i64) -> bool {
        pending_in(self.pending, camera_id)
    }

    /// Whether a scan of the camera is running.
    pub open spec fn is_active(self, camera_id: i64) -> bool {
        active_in(self.active, camera_id)
    }

    /// The place of the camera with this id in the table.
    pub open spec fn camera_index(self, id: i64) -> int {
        choose|i: int| 0 <= i < self.cameras.len() && (#[trigger] self.cameras[i]).id == id
    }

    /// The camera with this id.
    pub open spec fn camera(self, id: i64) -> CameraRecord {
        self.cameras[self.camera_index(id)]
    }

    /// No two running scans are on the same camera.
    pub open spec fn exclusive(self) -> bool {
        exclusive(self.active)
    }

    /// The rules that every store obeys.
    pub open spec fn wf(self) -> bool {
        &&& cameras_wf(self.cameras, self.next_camera_id)
        &&& pending_wf(self.pending, camera_ids(self.cameras))
        &&& active_wf(self.active, camera_ids(self.cameras))
        &&& completed_wf(self.completed, camera_ids(self.cameras), self.next_completed_id)
        &&& files_wf(self.files, camera_ids(self.cameras))
    }

    /// In a valid store the camera with the id of the camera at `k` is that
    /// camera.
    pub proof fn lemma_camera_is(self, k: int)
        requires
            cameras_wf(self.cameras, self.next_camera_id),
            0 <= k < self.cameras.len(),
        ensures
            self.has_camera(self.cameras[k].id),
            self.camera_index(self.cameras[k].id) == k,
            self.camera(self.cameras[k].id) == self.cameras[k],
    {
        let id = self.cameras[k].id;
        let c = self.camera_index(id);
        if c < k {
            assert(self.cameras[c].id < self.cameras[k].id);
        }
        if k < c {
            assert(self.cameras[k].id < self.cameras[c].id);
        }
    }
}

/// The tables of the scheduler and of the file index.
pub struct Store {
    cameras: Vec<CameraRecord>,
    pending: Vec<ScanPending>,
    active: Vec<ScanActive>,
    completed: Vec<ScanCompleted>,
    files: Vec<CameraFile>,
    next_camera_id: i64,
    next_completed_id: i64,
}

impl View for Store {
    type V = StoreView;

    closed spec fn view(&self) -> StoreView {
        StoreView {
            cameras: self.cameras@,
            pending: self.pending@,
            active: self.active@,
            completed: self.completed@,
            files: self.files@,
            next_camera_id: self.next_camera_id as int,
            next_completed_id: self.next_completed_id as int,
        }
    }
}

impl Store {
    /// Whether the store obeys its rules. Every store that this library
    /// hands out does, and every operation keeps it so.
    pub open spec fn wf(&self) -> bool {
        self@.wf()
    }

    /// Finds the camera with this id.
    pub(crate) fn find_camera(&self, id: i64) -> (r: Option<usize>)
        requires
            self.wf(),
        ensures
            r is Some <==> self@.has_camera(id),
            r matches Some(k) ==> k < self@.cameras.len() && self@.cameras[k as int].id == id
                && k == self@.camera_index(id),
    {
        let mut k: usize = 0;
        while k < self.cameras.len()
            invariant
                self.wf(),
                k <= self.cameras.len(),
                forall|i: int| 0 <= i < k ==> (#[trigger] self.cameras@[i]).id != id,
            decreases self.cameras.len() - k,
        {
            if self.cameras[k].id == id {
                proof {
                    self@.lemma_camera_is(k as int);
                }
                return Some(k);
            }
            k += 1;
        }
        None
    }

    /// Finds the completed scan with this id.
    pub(crate) fn find_completed(&self, id: i64) -> (r: Option<usize>)
        ensures
            r is Some <==> exists|i: int|
                0 <= i < self@.completed.len() && (#[trigger] self@.completed[i]).id == id,
            r matches Some(k) ==> k < self@.completed.len() && self@.completed[k as int].id == id,
    {
        let mut k: usize = 0;
        while k < self.completed.len()
            invariant
                k <= self.completed.len(),
                forall|i: int| 0 <= i < k ==> (#[trigger] self.completed@[i]).id != id,
            decreases self.completed.len() - k,
        {
            if self.completed[k].id == id {
                assert(self@.completed[k as int].id == id);
                return Some(k);
            }
            k += 1;
        }
        None
    }

    /// Finds the queued scan of this camera.
    pub(crate) fn find_pending(&self, camera_id: i64) -> (r: Option<usize>)
        ensures
            r is Some <==> self@.has_pending(camera_id),
            r matches Some(k) ==> k < self@.pending.len() && self@.pending[k as int].camera_id
                == camera_id,
    {
        let mut k: usize = 0;
        while k < self.pending.len()
            invariant
                k <= self.pending.len(),
                forall|i: int| 0 <= i < k ==> (#[trigger] self.pending@[i]).camera_id != camera_id,
            decreases self.pending.len() - k,
        {
            if self.pending[k].camera_id == camera_id {
                assert(self@.pending[k as int].camera_id == camera_id);
                return Some(k);
            }
            k += 1;
        }
        None
    }

    /// Finds the running scan of this camera.
    pub(crate) fn find_active(&self, camera_id: i64) -> (r: Option<usize>)
        ensures
            r is Some <==> self@.is_active(camera_id),
            r matches Some(k) ==> k < self@.active.len() && self@.active[k as int].camera_id
                == camera_id,
    {
        let mut k: usize = 0;
        while k < self.active.len()
            invariant
                k <= self.active.len(),
                forall|i: int| 0 <= i < k ==> (#[trigger] self.active@[i]).camera_id != camera_id,
            decreases self.active.len() - k,
        {
            if self.active[k].camera_id == camera_id {
                assert(self@.active[k as int].camera_id == camera_id);
                return Some(k);
            }
            k += 1;
        }
        None
    }
}

/// An empty store.
pub fn new() -> (store: Store)
    ensures
        store.wf(),
        store@.cameras.len() == 0,
        store@.pending.len() == 0,
        store@.active.len() == 0,
        store@.completed.len() == 0,
        store@.files.len() == 0,
        store@.next_camera_id == 1,
        store@.next_completed_id == 1,
{
    Store {
        cameras: Vec::new(),
        pending: Vec::new(),
        active: Vec::new(),
        completed: Vec::new(),
        files: Vec::new(),
        next_camera_id: 1,
        next_completed_id: 1,
    }
}

} // verus!
