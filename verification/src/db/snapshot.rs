//! The whole store as plain rows: what is written to durable storage and
//! read back when the process starts.

use crate::db::{
    camera_ids, camera_in, cameras_wf, completed_wf, files_wf, pending_wf, Store, StoreView,
};
use crate::error::DbError;
use crate::models::{
    CameraFile, CameraLicense, CameraRecord, ScanActive, ScanCompleted, ScanPending,
};
use vstd::prelude::*;

verus! {

/// The rows of every table and the next ids, as they are kept in durable
/// storage.
#[derive(Debug)]
pub struct Snapshot {
    pub cameras: Vec<CameraRecord>,
    pub pending: Vec<ScanPending>,
    pub active: Vec<ScanActive>,
    pub completed: Vec<ScanCompleted>,
    pub files: Vec<CameraFile>,
    pub next_camera_id: i64,
    pub next_completed_id: i64,
}

impl View for Snapshot {
    type V = StoreView;

    open spec fn view(&self) -> StoreView {
        StoreView {
            cameras: self.cameras@,
            pending: self.pending@,
            active: self.active@,
            completed: self.completed@,
            files: self.files@,
            next_camera_id: self.next_camera_id as int,
            next_completed_id: self.next_completed_id as int,
        }
    }
}

impl Clone for CameraRecord {
    fn clone(&self) -> (r: Self)
        ensures
            r.id == self.id,
            r.ip == self.ip,
            r.username == self.username,
            r.password == self.password,
            r.scan_cursor == self.scan_cursor,
            r.refreshed_at == self.refreshed_at,
            r.created_at == self.created_at,
            r.detail == self.detail,
            r.software == self.software,
            r.licenses@ == self.licenses@,
    {
        let mut licenses: Vec<CameraLicense> = Vec::new();
        let mut i: usize = 0;
        while i < self.licenses.len()
            invariant
                i <= self.licenses.len(),
                licenses@ == self.licenses@.take(i as int),
            decreases self.licenses.len() - i,
        {
            licenses.push(self.licenses[i].clone());
            assert(self.licenses@.take(i + 1) =~= self.licenses@.take(i as int).push(
                self.licenses@[i as int],
            ));
            i += 1;
        }
        assert(self.licenses@.take(i as int) =~= self.licenses@);
        CameraRecord {
            id: self.id,
            ip: self.ip.clone(),
            username: self.username.clone(),
            password: self.password.clone(),
            scan_cursor: self.scan_cursor,
            refreshed_at: self.refreshed_at,
            created_at: self.created_at,
            detail: self.detail.clone(),
            software: self.software.clone(),
            licenses,
        }
    }
}

/// Whether the camera `a` was copied from `b`: every field is the same, the
/// licenses one by one.
pub open spec fn same_camera(a: CameraRecord, b: CameraRecord) -> bool {
    &&& a.id == b.id
    &&& a.ip == b.ip
    &&& a.username == b.username
    &&& a.password == b.password
    &&& a.scan_cursor == b.scan_cursor
    &&& a.refreshed_at == b.refreshed_at
    &&& a.created_at == b.created_at
    &&& a.detail == b.detail
    &&& a.software == b.software
    &&& a.licenses@ == b.licenses@
}

/// Whether the cameras `a` were copied from `b`, one by one.
pub open spec fn same_cameras(a: Seq<CameraRecord>, b: Seq<CameraRecord>) -> bool {
    a.len() == b.len() && forall|i: int| 0 <= i < a.len() ==> same_camera(#[trigger] a[i], b[i])
}

fn has_id(cameras: &Vec<CameraRecord>, id: i64) -> (b: bool)
    ensures
        b == camera_ids(cameras@).contains(id),
{
    let mut k: usize = 0;
    while k < cameras.len()
        invariant
            k <= cameras.len(),
            forall|i: int| 0 <= i < k ==> (#[trigger] cameras@[i]).id != id,
        decreases cameras.len() - k,
    {
        if cameras[k].id == id {
            assert(camera_in(cameras@, id));
            return true;
        }
        k += 1;
    }
    false
}

fn check_cameras(cameras: &Vec<CameraRecord>, next_id: i64) -> (b: bool)
    ensures
        b == cameras_wf(cameras@, next_id as int),
{
    if next_id < 1 {
        return false;
    }
    let mut k: usize = 0;
    while k < cameras.len()
        invariant
            k <= cameras.len(),
            forall|i: int| 0 <= i < k ==> 0 < (#[trigger] cameras@[i]).id < next_id,
            forall|i: int, j: int|
                #![trigger cameras@[i], cameras@[j]]
                0 <= i < j < k ==> cameras@[i].id < cameras@[j].id,
        decreases cameras.len() - k,
    {
        if cameras[k].id <= 0 || cameras[k].id >= next_id {
            return false;
        }
        if k > 0 && cameras[k - 1].id >= cameras[k].id {
            assert(!(cameras@[k - 1].id < cameras@[k as int].id));
            return false;
        }
        proof {
            assert forall|i: int| 0 <= i < k implies (#[trigger] cameras@[i]).id < cameras@[k as int].id by {
                if i < k - 1 {
                    assert(cameras@[i].id < cameras@[k - 1].id);
                }
            }
        }
        k += 1;
    }
    true
}

fn check_pending(pending: &Vec<ScanPending>, cameras: &Vec<CameraRecord>) -> (b: bool)
    ensures
        b == pending_wf(pending@, camera_ids(cameras@)),
{
    let mut k: usize = 0;
    while k < pending.len()
        invariant
            k <= pending.len(),
            forall|i: int|
                0 <= i < k ==> camera_ids(cameras@).contains((#[trigger] pending@[i]).camera_id)
                    && pending@[i].range_start <= pending@[i].range_end,
            forall|i: int, j: int|
                #![trigger pending@[i], pending@[j]]
                0 <= i < j < k ==> pending@[i].camera_id != pending@[j].camera_id,
        decreases pending.len() - k,
    {
        if !has_id(cameras, pending[k].camera_id) || pending[k].range_start
            > pending[k].range_end {
            return false;
        }
        let mut m: usize = 0;
        while m < k
            invariant
                m <= k < pending.len(),
                forall|i: int| 0 <= i < m ==> (#[trigger] pending@[i]).camera_id != pending@[k as int].camera_id,
            decreases k - m,
        {
            if pending[m].camera_id == pending[k].camera_id {
                assert(!(pending@[m as int].camera_id != pending@[k as int].camera_id));
                return false;
            }
            m += 1;
        }
        k += 1;
    }
    true
}

fn check_completed(completed: &Vec<ScanCompleted>, cameras: &Vec<CameraRecord>, next_id: i64) -> (b:
    bool)
    ensures
        b == completed_wf(completed@, camera_ids(cameras@), next_id as int),
{
    if next_id < 1 {
        return false;
    }
    let mut k: usize = 0;
    while k < completed.len()
        invariant
            k <= completed.len(),
            forall|i: int|
                0 <= i < k ==> 0 < (#[trigger] completed@[i]).id < next_id && camera_ids(
                    cameras@,
                ).contains(completed@[i].camera_id),
            forall|i: int, j: int|
                #![trigger completed@[i], completed@[j]]
                0 <= i < j < k ==> completed@[i].id < completed@[j].id,
        decreases completed.len() - k,
    {
        if completed[k].id <= 0 || completed[k].id >= next_id || !has_id(
            cameras,
            completed[k].camera_id,
        ) {
            return false;
        }
        if k > 0 && completed[k - 1].id >= completed[k].id {
            assert(!(completed@[k - 1].id < completed@[k as int].id));
            return false;
        }
        proof {
            assert forall|i: int| 0 <= i < k implies (#[trigger] completed@[i]).id < completed@[k as int].id by {
                if i < k - 1 {
                    assert(completed@[i].id < completed@[k - 1].id);
                }
            }
        }
        k += 1;
    }
    true
}

fn check_files(files: &Vec<CameraFile>, cameras: &Vec<CameraRecord>) -> (b: bool)
    ensures
        b == files_wf(files@, camera_ids(cameras@)),
{
    let mut k: usize = 0;
    while k < files.len()
        invariant
            k <= files.len(),
            forall|i: int|
                0 <= i < k ==> camera_ids(cameras@).contains((#[trigger] files@[i]).camera_id),
            forall|i: int, j: int|
                #![trigger files@[i], files@[j]]
                0 <= i < j < k ==> files@[i].before(&files@[j]),
        decreases files.len() - k,
    {
        if !has_id(cameras, files[k].camera_id) {
            return false;
        }
        if k > 0 && !(files[k - 1].start_time > files[k].start_time || (files[k - 1].start_time
            == files[k].start_time && files[k - 1].camera_id > files[k].camera_id)) {
            assert(!files@[k - 1].before(&files@[k as int]));
            return false;
        }
        proof {
            assert forall|i: int| 0 <= i < k implies (#[trigger] files@[i]).before(&files@[k as int]) by {
                if i < k - 1 {
                    assert(files@[i].before(&files@[k - 1]));
                }
            }
        }
        k += 1;
    }
    true
}

impl Snapshot {
    /// Whether the rows can be taken as a store: they obey every rule of the
    /// store, but that scans may be named as running.
    pub open spec fn restorable(&self) -> bool {
        &&& cameras_wf(self.cameras@, self.next_camera_id as int)
        &&& pending_wf(self.pending@, camera_ids(self.cameras@))
        &&& completed_wf(
            self.completed@,
            camera_ids(self.cameras@),
            self.next_completed_id as int,
        )
        &&& files_wf(self.files@, camera_ids(self.cameras@))
    }

    /// Takes the rows as the store of a process that starts. The scans that
    /// the rows name as running are dropped: they belonged to a process that
    /// has stopped. They are not queued again.
    ///
    /// Fails with `Conflict` when the rows break a rule of the store.
    pub fn restore(self) -> (r: Result<Store, DbError>)
        ensures
            r is Ok <==> self.restorable(),
            r matches Err(e) ==> e == DbError::Conflict,
            r matches Ok(store) ==> store.wf() && store@ == (StoreView {
                active: Seq::empty(),
                ..self@
            }),
    {
        if !check_cameras(&self.cameras, self.next_camera_id) || !check_pending(
            &self.pending,
            &self.cameras,
        ) || !check_completed(&self.completed, &self.cameras, self.next_completed_id)
            || !check_files(&self.files, &self.cameras) {
            return Err(DbError::Conflict);
        }
        let store = Store {
            cameras: self.cameras,
            pending: self.pending,
            active: Vec::new(),
            completed: self.completed,
            files: self.files,
            next_camera_id: self.next_camera_id,
            next_completed_id: self.next_completed_id,
        };
        assert(store@.cameras == self@.cameras);
        Ok(store)
    }
}

impl Store {
    /// The rows of every table, to be written to durable storage.
    pub fn snapshot(&self) -> (s: Snapshot)
        ensures
            same_cameras(s@.cameras, self@.cameras),
            s@ == (StoreView { cameras: s@.cameras, ..self@ }),
    {
        let mut cameras: Vec<CameraRecord> = Vec::new();
        let mut i: usize = 0;
        while i < self.cameras.len()
            invariant
                i <= self.cameras.len(),
                cameras@.len() == i,
                forall|j: int| 0 <= j < i ==> same_camera(#[trigger] cameras@[j], self.cameras@[j]),
            decreases self.cameras.len() - i,
        {
            cameras.push(self.cameras[i].clone());
            i += 1;
        }
        let mut pending: Vec<ScanPending> = Vec::new();
        let mut i: usize = 0;
        while i < self.pending.len()
            invariant
                i <= self.pending.len(),
                pending@ == self.pending@.take(i as int),
            decreases self.pending.len() - i,
        {
            pending.push(self.pending[i]);
            assert(self.pending@.take(i + 1) =~= self.pending@.take(i as int).push(
                self.pending@[i as int],
            ));
            i += 1;
        }
        assert(self.pending@.take(i as int) =~= self.pending@);
        let mut active: Vec<ScanActive> = Vec::new();
        let mut i: usize = 0;
        while i < self.active.len()
            invariant
                i <= self.active.len(),
                active@ == self.active@.take(i as int),
            decreases self.active.len() - i,
        {
            active.push(self.active[i]);
            assert(self.active@.take(i + 1) =~= self.active@.take(i as int).push(
                self.active@[i as int],
            ));
            i += 1;
        }
        assert(self.active@.take(i as int) =~= self.active@);
        let mut completed: Vec<ScanCompleted> = Vec::new();
        let mut i: usize = 0;
        while i < self.completed.len()
            invariant
                i <= self.completed.len(),
                completed@ == self.completed@.take(i as int),
            decreases self.completed.len() - i,
        {
            completed.push(self.completed[i].clone());
            assert(self.completed@.take(i + 1) =~= self.completed@.take(i as int).push(
                self.completed@[i as int],
            ));
            i += 1;
        }
        assert(self.completed@.take(i as int) =~= self.completed@);
        let mut files: Vec<CameraFile> = Vec::new();
        let mut i: usize = 0;
        while i < self.files.len()
            invariant
                i <= self.files.len(),
                files@ == self.files@.take(i as int),
            decreases self.files.len() - i,
        {
            files.push(self.files[i].clone());
            assert(self.files@.take(i + 1) =~= self.files@.take(i as int).push(
                self.files@[i as int],
            ));
            i += 1;
        }
        assert(self.files@.take(i as int) =~= self.files@);
        Snapshot {
            cameras,
            pending,
            active,
            completed,
            files,
            next_camera_id: self.next_camera_id,
            next_completed_id: self.next_completed_id,
        }
    }
}

impl Clone for Store {
    /// A second store with the same rows. It is as valid as this one.
    fn clone(&self) -> (r: Self)
        ensures
            same_cameras(r@.cameras, self@.cameras),
            r@ == (StoreView { cameras: r@.cameras, ..self@ }),
            self.wf() ==> r.wf(),
    {
        let s = self.snapshot();
        let r = Store {
            cameras: s.cameras,
            pending: s.pending,
            active: s.active,
            completed: s.completed,
            files: s.files,
            next_camera_id: s.next_camera_id,
            next_completed_id: s.next_completed_id,
        };
        proof {
            crate::db::lemma_same_ids(self@.cameras, r@.cameras, self@.next_camera_id);
        }
        r
    }
}

/// A store that is written out and read back comes back as it was, but for
/// the running scans: none of them is left, and none of them is queued again.
pub proof fn lemma_restart(store: StoreView, snapshot: Snapshot)
    requires
        store.wf(),
        same_cameras(snapshot@.cameras, store.cameras),
        snapshot@ == (StoreView { cameras: snapshot@.cameras, ..store }),
    ensures
        snapshot.restorable(),
        snapshot@.pending == store.pending,
        snapshot@.completed == store.completed,
{
    crate::db::lemma_same_ids(store.cameras, snapshot@.cameras, store.next_camera_id);
}

} // verus!
