//! The cameras and what the store keeps about each.

use crate::db::{camera_ids, camera_in, cameras_wf, lemma_same_ids, Store, StoreView};
use crate::error::DbError;
use crate::laws::Op;
use crate::models::{
    Camera, CameraDetail, CameraFile, CameraLicense, CameraRecord, CameraSoftware,
    CreateCameraRequest, ICamera, ScanActive, ScanCompleted, ScanPending, UpdateCameraRequest,
};
use crate::scan::{Scan, SCAN_EPOCH};
use crate::seqs::{
    lemma_filter_all, lemma_filter_member, lemma_filter_one, lemma_filter_pairwise,
    lemma_filter_take,
};
use vstd::prelude::*;

verus! {

impl CreateCameraRequest {
    /// Whether `rec` is the camera that this request creates at `now` under
    /// `id`: it has the request's address and credentials, the scan cursor at
    /// the epoch, and nothing reported yet.
    pub open spec fn creates(&self, rec: CameraRecord, id: i64, now: i64) -> bool {
        &&& rec.id == id
        &&& rec.ip == self.ip
        &&& rec.username == self.username
        &&& rec.password == self.password
        &&& rec.scan_cursor == SCAN_EPOCH
        &&& rec.refreshed_at == SCAN_EPOCH
        &&& rec.created_at == now
        &&& rec.detail.is_blank()
        &&& rec.software.is_blank()
        &&& rec.licenses@.len() == 0
    }

    /// Adds the camera to the store at `now` and returns its id, the next
    /// camera id of the store.
    ///
    /// Fails with `Full`, changing nothing, when no camera id is left.
    pub fn create_db(self, store: &mut Store, now: i64) -> (r: Result<i64, DbError>)
        requires
            old(store).wf(),
        ensures
            final(store).wf(),
            r is Err <==> old(store)@.next_camera_id == i64::MAX,
            r matches Err(e) ==> e == DbError::Full && final(store)@ == old(store)@,
            r matches Ok(id) ==> {
                &&& id == old(store)@.next_camera_id
                &&& final(store)@ == (StoreView {
                    cameras: final(store)@.cameras,
                    next_camera_id: id + 1,
                    ..old(store)@
                })
                &&& final(store)@.cameras.len() == old(store)@.cameras.len() + 1
                &&& final(store)@.cameras.drop_last() == old(store)@.cameras
                &&& self.creates(final(store)@.cameras.last(), id, now)
            },
    {
        if store.next_camera_id == i64::MAX {
            return Err(DbError::Full);
        }
        let id = store.next_camera_id;
        let rec = CameraRecord {
            id,
            ip: self.ip,
            username: self.username,
            password: self.password,
            scan_cursor: Scan::cursor(),
            refreshed_at: SCAN_EPOCH,
            created_at: now,
            detail: CameraDetail::blank(),
            software: CameraSoftware::blank(),
            licenses: Vec::new(),
        };
        store.cameras.push(rec);
        store.next_camera_id = id + 1;
        proof {
            let before = old(store)@;
            assert(store@.cameras.drop_last() =~= before.cameras);
            lemma_camera_push(before.cameras, before.next_camera_id, rec);
        }
        Ok(id)
    }
}

/// Adding a camera with the next id keeps the cameras valid, and every id
/// that existed still does.
pub proof fn lemma_camera_push(cameras: Seq<CameraRecord>, next_id: int, rec: CameraRecord)
    requires
        cameras_wf(cameras, next_id),
        next_id < i64::MAX,
        rec.id == next_id,
    ensures
        cameras_wf(cameras.push(rec), next_id + 1),
        camera_ids(cameras).subset_of(camera_ids(cameras.push(rec))),
        camera_ids(cameras.push(rec)).contains(rec.id),
{
    let after = cameras.push(rec);
    assert forall|i: int| 0 <= i < after.len() implies 0 < (#[trigger] after[i]).id < next_id
        + 1 by {
        if i < cameras.len() {
            assert(after[i] == cameras[i]);
        }
    }
    assert forall|i: int, j: int|
        #![trigger after[i], after[j]]
        0 <= i < j < after.len() implies after[i].id < after[j].id by {
        assert(after[i] == cameras[i]);
        if j < cameras.len() {
            assert(after[j] == cameras[j]);
        }
    }
    assert forall|id: i64| camera_in(cameras, id) implies camera_in(after, id) by {
        let i = choose|i: int| 0 <= i < cameras.len() && (#[trigger] cameras[i]).id == id;
        assert(after[i].id == id);
    }
    assert(after[cameras.len() as int].id == rec.id);
}

impl UpdateCameraRequest {
    /// The camera `rec` after this request: each field that the request
    /// gives replaces the camera's.
    pub open spec fn applied(&self, rec: CameraRecord) -> CameraRecord {
        CameraRecord {
            ip: if self.ip is Some {
                self.ip->0
            } else {
                rec.ip
            },
            username: if self.username is Some {
                self.username->0
            } else {
                rec.username
            },
            password: if self.password is Some {
                self.password->0
            } else {
                rec.password
            },
            ..rec
        }
    }

    /// Changes the camera with the request's id.
    ///
    /// Fails with `NotFound`, changing nothing, when there is no such camera.
    pub fn update(self, store: &mut Store) -> (r: Result<(), DbError>)
        requires
            old(store).wf(),
        ensures
            final(store).wf(),
            r is Ok <==> old(store)@.has_camera(self.id),
            r matches Err(e) ==> e == DbError::NotFound && final(store)@ == old(store)@,
            r is Ok ==> final(store)@ == (StoreView {
                cameras: old(store)@.cameras.update(
                    old(store)@.camera_index(self.id),
                    self.applied(old(store)@.camera(self.id)),
                ),
                ..old(store)@
            }),
    {
        match store.find_camera(self.id) {
            Some(k) => {
                let mut rec = store.cameras.remove(k);
                if let Some(ip) = self.ip {
                    rec.ip = ip;
                }
                if let Some(username) = self.username {
                    rec.username = username;
                }
                if let Some(password) = self.password {
                    rec.password = password;
                }
                store.cameras.insert(k, rec);
                proof {
                    let before = old(store)@;
                    assert(store@.cameras =~= before.cameras.update(k as int, rec));
                    lemma_same_ids(before.cameras, store@.cameras, before.next_camera_id);
                }
                Ok(())
            },
            None => Err(DbError::NotFound),
        }
    }
}

impl StoreView {
    /// The store without the camera `id` and without every row that belongs
    /// to it: its queued and running scans, its history and its files.
    pub open spec fn without_camera(self, id: i64) -> StoreView {
        StoreView {
            cameras: self.cameras.filter(|c: CameraRecord| c.id != id),
            pending: self.pending.filter(|p: ScanPending| p.camera_id != id),
            active: self.active.filter(|a: ScanActive| a.camera_id != id),
            completed: self.completed.filter(|c: ScanCompleted| c.camera_id != id),
            files: self.files.filter(|f: CameraFile| f.camera_id != id),
            ..self
        }
    }

    /// Removing a camera with all its rows keeps the store valid.
    pub proof fn lemma_without_camera(self, id: i64)
        requires
            self.wf(),
        ensures
            self.without_camera(id).wf(),
            !self.without_camera(id).has_camera(id),
    {
        let after = self.without_camera(id);
        let ids = camera_ids(self.cameras);
        let ids2 = camera_ids(after.cameras);
        let keep_c = |c: CameraRecord| c.id != id;
        lemma_filter_pairwise(self.cameras, keep_c, |a: CameraRecord, b: CameraRecord| a.id < b.id);
        assert forall|i: int| 0 <= i < after.cameras.len() implies 0 < (
        #[trigger] after.cameras[i]).id < self.next_camera_id && after.cameras[i].id != id by {
            lemma_filter_member(self.cameras, keep_c, i);
            let k = choose|k: int|
                0 <= k < self.cameras.len() && #[trigger] self.cameras[k] == after.cameras[i];
            assert(0 < self.cameras[k].id);
        }
        assert forall|x: i64| ids.contains(x) && x != id implies ids2.contains(x) by {
            let k = choose|k: int| 0 <= k < self.cameras.len() && (#[trigger] self.cameras[k]).id == x;
            self.cameras.lemma_filter_contains(keep_c, k);
            let j = after.cameras.index_of(self.cameras[k]);
            assert(after.cameras[j].id == x);
        }
        let keep_p = |p: ScanPending| p.camera_id != id;
        lemma_filter_pairwise(
            self.pending,
            keep_p,
            |a: ScanPending, b: ScanPending| a.camera_id != b.camera_id,
        );
        assert forall|i: int| 0 <= i < after.pending.len() implies ids2.contains(
            (#[trigger] after.pending[i]).camera_id,
        ) && after.pending[i].range_start <= after.pending[i].range_end by {
            lemma_filter_member(self.pending, keep_p, i);
            let k = choose|k: int|
                0 <= k < self.pending.len() && #[trigger] self.pending[k] == after.pending[i];
            assert(ids.contains(self.pending[k].camera_id));
        }
        let keep_a = |a: ScanActive| a.camera_id != id;
        lemma_filter_pairwise(
            self.active,
            keep_a,
            |a: ScanActive, b: ScanActive| a.camera_id != b.camera_id,
        );
        assert forall|i: int| 0 <= i < after.active.len() implies ids2.contains(
            (#[trigger] after.active[i]).camera_id,
        ) by {
            lemma_filter_member(self.active, keep_a, i);
            let k = choose|k: int|
                0 <= k < self.active.len() && #[trigger] self.active[k] == after.active[i];
            assert(ids.contains(self.active[k].camera_id));
        }
        let keep_d = |c: ScanCompleted| c.camera_id != id;
        lemma_filter_pairwise(
            self.completed,
            keep_d,
            |a: ScanCompleted, b: ScanCompleted| a.id < b.id,
        );
        assert forall|i: int| 0 <= i < after.completed.len() implies 0 < (
        #[trigger] after.completed[i]).id < self.next_completed_id && ids2.contains(
            after.completed[i].camera_id,
        ) by {
            lemma_filter_member(self.completed, keep_d, i);
            let k = choose|k: int|
                0 <= k < self.completed.len() && #[trigger] self.completed[k]
                    == after.completed[i];
            assert(ids.contains(self.completed[k].camera_id));
        }
        let keep_f = |f: CameraFile| f.camera_id != id;
        lemma_filter_pairwise(self.files, keep_f, |a: CameraFile, b: CameraFile| a.before(&b));
        assert forall|i: int| 0 <= i < after.files.len() implies ids2.contains(
            (#[trigger] after.files[i]).camera_id,
        ) by {
            lemma_filter_member(self.files, keep_f, i);
            let k = choose|k: int|
                0 <= k < self.files.len() && #[trigger] self.files[k] == after.files[i];
            assert(ids.contains(self.files[k].camera_id));
        }
    }
}

impl Store {
    /// Takes the rows of the camera out of the history.
    fn forget_completed(&mut self, id: i64)
        ensures
            final(self)@ == (StoreView {
                completed: old(self)@.completed.filter(|c: ScanCompleted| c.camera_id != id),
                ..old(self)@
            }),
    {
        let ghost keep = |c: ScanCompleted| c.camera_id != id;
        let mut out: Vec<ScanCompleted> = Vec::new();
        let mut i: usize = 0;
        while i < self.completed.len()
            invariant
                i <= self.completed.len(),
                keep == (|c: ScanCompleted| c.camera_id != id),
                out@ == self.completed@.take(i as int).filter(keep),
            decreases self.completed.len() - i,
        {
            proof {
                lemma_filter_take(self.completed@, keep, i as int);
            }
            if self.completed[i].camera_id != id {
                out.push(self.completed[i].clone());
            }
            i += 1;
        }
        assert(self.completed@.take(i as int) =~= self.completed@);
        self.completed = out;
        assert(self@.completed == old(self)@.completed.filter(keep));
    }

    /// Takes the files of the camera out of the index.
    fn forget_files(&mut self, id: i64)
        ensures
            final(self)@ == (StoreView {
                files: old(self)@.files.filter(|f: CameraFile| f.camera_id != id),
                ..old(self)@
            }),
    {
        let ghost keep = |f: CameraFile| f.camera_id != id;
        let mut out: Vec<CameraFile> = Vec::new();
        let mut i: usize = 0;
        while i < self.files.len()
            invariant
                i <= self.files.len(),
                keep == (|f: CameraFile| f.camera_id != id),
                out@ == self.files@.take(i as int).filter(keep),
            decreases self.files.len() - i,
        {
            proof {
                lemma_filter_take(self.files@, keep, i as int);
            }
            if self.files[i].camera_id != id {
                out.push(self.files[i].clone());
            }
            i += 1;
        }
        assert(self.files@.take(i as int) =~= self.files@);
        self.files = out;
        assert(self@.files == old(self)@.files.filter(keep));
    }

    /// Takes the queued scan of the camera out of the queue.
    fn forget_pending(&mut self, id: i64)
        requires
            crate::db::one_intent(old(self)@.pending),
        ensures
            final(self)@ == (StoreView {
                pending: old(self)@.pending.filter(|p: ScanPending| p.camera_id != id),
                ..old(self)@
            }),
    {
        let ghost keep = |p: ScanPending| p.camera_id != id;
        match self.find_pending(id) {
            Some(k) => {
                proof {
                    assert forall|j: int| 0 <= j < self@.pending.len() && j != k implies keep(
                        #[trigger] self@.pending[j],
                    ) by {
                        if j < k {
                            assert(self@.pending[j].camera_id != self@.pending[k as int].camera_id);
                        } else {
                            assert(self@.pending[k as int].camera_id != self@.pending[j].camera_id);
                        }
                    }
                    lemma_filter_one(self@.pending, keep, k as int);
                }
                self.pending.remove(k);
            },
            None => {
                proof {
                    lemma_filter_all(self@.pending, keep);
                }
            },
        }
        assert(self@.pending == old(self)@.pending.filter(keep));
    }

    /// Takes the running scan of the camera out of the running scans.
    fn forget_active(&mut self, id: i64)
        requires
            crate::db::exclusive(old(self)@.active),
        ensures
            final(self)@ == (StoreView {
                active: old(self)@.active.filter(|a: ScanActive| a.camera_id != id),
                ..old(self)@
            }),
    {
        let ghost keep = |a: ScanActive| a.camera_id != id;
        match self.find_active(id) {
            Some(k) => {
                proof {
                    assert forall|j: int| 0 <= j < self@.active.len() && j != k implies keep(
                        #[trigger] self@.active[j],
                    ) by {
                        if j < k {
                            assert(self@.active[j].camera_id != self@.active[k as int].camera_id);
                        } else {
                            assert(self@.active[k as int].camera_id != self@.active[j].camera_id);
                        }
                    }
                    lemma_filter_one(self@.active, keep, k as int);
                }
                self.active.remove(k);
            },
            None => {
                proof {
                    lemma_filter_all(self@.active, keep);
                }
            },
        }
        assert(self@.active == old(self)@.active.filter(keep));
    }
}

impl Camera {
    /// Removes the camera with this id and every row that belongs to it: its
    /// queued and running scans, its history and its files.
    ///
    /// Fails with `NotFound`, changing nothing, when there is no such camera.
    pub fn delete(store: &mut Store, camera_id: i64) -> (r: Result<(), DbError>)
        requires
            old(store).wf(),
        ensures
            final(store).wf(),
            r is Ok <==> old(store)@.has_camera(camera_id),
            r matches Err(e) ==> e == DbError::NotFound && final(store)@ == old(store)@,
            r is Ok ==> final(store)@ == old(store)@.without_camera(camera_id),
            final(store)@ == old(store)@.apply(Op::Delete { camera_id }),
            !final(store)@.has_camera(camera_id),
    {
        let ghost keep = |c: CameraRecord| c.id != camera_id;
        match store.find_camera(camera_id) {
            Some(k) => {
                proof {
                    assert forall|j: int| 0 <= j < store@.cameras.len() && j != k implies keep(
                        #[trigger] store@.cameras[j],
                    ) by {
                        if j < k {
                            assert(store@.cameras[j].id < store@.cameras[k as int].id);
                        } else {
                            assert(store@.cameras[k as int].id < store@.cameras[j].id);
                        }
                    }
                    lemma_filter_one(store@.cameras, keep, k as int);
                    old(store)@.lemma_without_camera(camera_id);
                }
                store.cameras.remove(k);
                assert(store@.cameras == old(store)@.cameras.filter(keep));
                store.forget_pending(camera_id);
                store.forget_active(camera_id);
                store.forget_completed(camera_id);
                store.forget_files(camera_id);
                assert(store@ == old(store)@.without_camera(camera_id));
                Ok(())
            },
            None => Err(DbError::NotFound),
        }
    }

    /// The number of cameras.
    pub fn total(store: &Store) -> (n: usize)
        ensures
            n == store@.cameras.len(),
    {
        store.cameras.len()
    }

    /// The cameras, in the order in which they were added.
    pub fn list(store: &Store) -> (r: Vec<Camera>)
        ensures
            r@.len() == store@.cameras.len(),
            forall|i: int| 0 <= i < r@.len() ==> (#[trigger] r@[i]) == store@.cameras[i].camera(),
    {
        let mut out: Vec<Camera> = Vec::new();
        let mut i: usize = 0;
        while i < store.cameras.len()
            invariant
                i <= store.cameras.len(),
                out@.len() == i,
                forall|j: int| 0 <= j < i ==> (#[trigger] out@[j]) == store.cameras@[j].camera(),
            decreases store.cameras.len() - i,
        {
            out.push(store.cameras[i].to_camera());
            i += 1;
        }
        out
    }

    /// The camera with this id; `NotFound` when there is none.
    pub fn find(store: &Store, camera_id: i64) -> (r: Result<Camera, DbError>)
        requires
            store.wf(),
        ensures
            r is Ok <==> store@.has_camera(camera_id),
            r matches Ok(c) ==> c == store@.camera(camera_id).camera(),
            r matches Err(e) ==> e == DbError::NotFound,
    {
        match store.find_camera(camera_id) {
            Some(k) => Ok(store.cameras[k].to_camera()),
            None => Err(DbError::NotFound),
        }
    }

    /// Records that the camera was refreshed at `now`.
    ///
    /// Fails with `NotFound`, changing nothing, when there is no such camera.
    pub fn update_refreshed_at(store: &mut Store, camera_id: i64, now: i64) -> (r: Result<
        (),
        DbError,
    >)
        requires
            old(store).wf(),
        ensures
            final(store).wf(),
            r is Ok <==> old(store)@.has_camera(camera_id),
            r matches Err(e) ==> e == DbError::NotFound && final(store)@ == old(store)@,
            r is Ok ==> final(store)@ == (StoreView {
                cameras: old(store)@.cameras.update(
                    old(store)@.camera_index(camera_id),
                    CameraRecord { refreshed_at: now, ..old(store)@.camera(camera_id) },
                ),
                ..old(store)@
            }),
    {
        match store.find_camera(camera_id) {
            Some(k) => {
                let mut rec = store.cameras.remove(k);
                rec.refreshed_at = now;
                store.cameras.insert(k, rec);
                proof {
                    let before = old(store)@;
                    assert(store@.cameras =~= before.cameras.update(k as int, rec));
                    lemma_same_ids(before.cameras, store@.cameras, before.next_camera_id);
                }
                Ok(())
            },
            None => Err(DbError::NotFound),
        }
    }
}

impl ICamera {
    /// The camera with this id and its credentials, if there is one.
    pub fn find_optional(store: &Store, camera_id: i64) -> (r: Option<ICamera>)
        requires
            store.wf(),
        ensures
            r is Some <==> store@.has_camera(camera_id),
            r matches Some(c) ==> c == store@.camera(camera_id).icamera(),
    {
        match store.find_camera(camera_id) {
            Some(k) => Some(store.cameras[k].to_icamera()),
            None => None,
        }
    }

    /// The cameras with their credentials, in the order in which they were
    /// added.
    pub fn list(store: &Store) -> (r: Vec<ICamera>)
        ensures
            r@.len() == store@.cameras.len(),
            forall|i: int| 0 <= i < r@.len() ==> (#[trigger] r@[i]) == store@.cameras[i].icamera(),
    {
        let mut out: Vec<ICamera> = Vec::new();
        let mut i: usize = 0;
        while i < store.cameras.len()
            invariant
                i <= store.cameras.len(),
                out@.len() == i,
                forall|j: int| 0 <= j < i ==> (#[trigger] out@[j]) == store.cameras@[j].icamera(),
            decreases store.cameras.len() - i,
        {
            out.push(store.cameras[i].to_icamera());
            i += 1;
        }
        out
    }
}

impl CameraDetail {
    /// The detail that the camera with this id has reported; `NotFound` when
    /// there is no such camera.
    pub fn find(store: &Store, camera_id: i64) -> (r: Result<CameraDetail, DbError>)
        requires
            store.wf(),
        ensures
            r is Ok <==> store@.has_camera(camera_id),
            r matches Ok(d) ==> d == store@.camera(camera_id).detail,
            r matches Err(e) ==> e == DbError::NotFound,
    {
        match store.find_camera(camera_id) {
            Some(k) => Ok(store.cameras[k].detail.clone()),
            None => Err(DbError::NotFound),
        }
    }

    /// Stores this detail as what the camera with this id has reported.
    ///
    /// Fails with `NotFound`, changing nothing, when there is no such camera.
    pub fn save(self, store: &mut Store, camera_id: i64) -> (r: Result<(), DbError>)
        requires
            old(store).wf(),
        ensures
            final(store).wf(),
            r is Ok <==> old(store)@.has_camera(camera_id),
            r matches Err(e) ==> e == DbError::NotFound && final(store)@ == old(store)@,
            r is Ok ==> final(store)@ == (StoreView {
                cameras: old(store)@.cameras.update(
                    old(store)@.camera_index(camera_id),
                    CameraRecord { detail: self, ..old(store)@.camera(camera_id) },
                ),
                ..old(store)@
            }),
    {
        match store.find_camera(camera_id) {
            Some(k) => {
                let mut rec = store.cameras.remove(k);
                rec.detail = self;
                store.cameras.insert(k, rec);
                proof {
                    let before = old(store)@;
                    assert(store@.cameras =~= before.cameras.update(k as int, rec));
                    lemma_same_ids(before.cameras, store@.cameras, before.next_camera_id);
                }
                Ok(())
            },
            None => Err(DbError::NotFound),
        }
    }
}

impl CameraSoftware {
    /// The software that the camera with this id has reported; `NotFound`
    /// when there is no such camera.
    pub fn find(store: &Store, camera_id: i64) -> (r: Result<CameraSoftware, DbError>)
        requires
            store.wf(),
        ensures
            r is Ok <==> store@.has_camera(camera_id),
            r matches Ok(d) ==> d == store@.camera(camera_id).software,
            r matches Err(e) ==> e == DbError::NotFound,
    {
        match store.find_camera(camera_id) {
            Some(k) => Ok(store.cameras[k].software.clone()),
            None => Err(DbError::NotFound),
        }
    }

    /// Stores this software as what the camera with this id has reported.
    ///
    /// Fails with `NotFound`, changing nothing, when there is no such camera.
    pub fn save(self, store: &mut Store, camera_id: i64) -> (r: Result<(), DbError>)
        requires
            old(store).wf(),
        ensures
            final(store).wf(),
            r is Ok <==> old(store)@.has_camera(camera_id),
            r matches Err(e) ==> e == DbError::NotFound && final(store)@ == old(store)@,
            r is Ok ==> final(store)@ == (StoreView {
                cameras: old(store)@.cameras.update(
                    old(store)@.camera_index(camera_id),
                    CameraRecord { software: self, ..old(store)@.camera(camera_id) },
                ),
                ..old(store)@
            }),
    {
        match store.find_camera(camera_id) {
            Some(k) => {
                let mut rec = store.cameras.remove(k);
                rec.software = self;
                store.cameras.insert(k, rec);
                proof {
                    let before = old(store)@;
                    assert(store@.cameras =~= before.cameras.update(k as int, rec));
                    lemma_same_ids(before.cameras, store@.cameras, before.next_camera_id);
                }
                Ok(())
            },
            None => Err(DbError::NotFound),
        }
    }
}

impl CameraLicense {
    /// The licenses that the camera with this id has reported; none when
    /// there is no such camera.
    pub fn list(store: &Store, camera_id: i64) -> (r: Vec<CameraLicense>)
        requires
            store.wf(),
        ensures
            r@ == if store@.has_camera(camera_id) {
                store@.camera(camera_id).licenses@
            } else {
                Seq::empty()
            },
    {
        let mut out: Vec<CameraLicense> = Vec::new();
        if let Some(k) = store.find_camera(camera_id) {
            let licenses = &store.cameras[k].licenses;
            let mut i: usize = 0;
            while i < licenses.len()
                invariant
                    i <= licenses.len(),
                    out@ == licenses@.take(i as int),
                decreases licenses.len() - i,
            {
                out.push(licenses[i].clone());
                assert(licenses@.take(i + 1) =~= licenses@.take(i as int).push(licenses@[i as int]));
                i += 1;
            }
            assert(licenses@.take(i as int) =~= licenses@);
        }
        out
    }

    /// Stores `licenses` as what the camera with this id has reported, in
    /// place of what it had.
    ///
    /// Fails with `NotFound`, changing nothing, when there is no such camera.
    pub fn save(licenses: Vec<CameraLicense>, store: &mut Store, camera_id: i64) -> (r: Result<
        (),
        DbError,
    >)
        requires
            old(store).wf(),
        ensures
            final(store).wf(),
            r is Ok <==> old(store)@.has_camera(camera_id),
            r matches Err(e) ==> e == DbError::NotFound && final(store)@ == old(store)@,
            r is Ok ==> final(store)@ == (StoreView {
                cameras: old(store)@.cameras.update(
                    old(store)@.camera_index(camera_id),
                    CameraRecord { licenses, ..old(store)@.camera(camera_id) },
                ),
                ..old(store)@
            }),
    {
        match store.find_camera(camera_id) {
            Some(k) => {
                let mut rec = store.cameras.remove(k);
                rec.licenses = licenses;
                store.cameras.insert(k, rec);
                proof {
                    let before = old(store)@;
                    assert(store@.cameras =~= before.cameras.update(k as int, rec));
                    lemma_same_ids(before.cameras, store@.cameras, before.next_camera_id);
                }
                Ok(())
            },
            None => Err(DbError::NotFound),
        }
    }
}

} // verus!
