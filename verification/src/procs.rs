//! The scheduler: what an operator asks for, and the scans that start in
//! answer.
//!
//! Each request comes in two forms. The form that ends in `_at` takes the
//! time of the request and says exactly what it does. The plain form reads
//! the clock and does what the other does at the time it read.

use crate::clock::unix_millis;
use crate::cursor::CameraFileQueryCursor;
use crate::db::{Store, StoreView};
use crate::error::DbError;
use crate::filter::CameraFileQueryFilter;
use crate::models::{
    CameraDetail, CameraFile, CameraLicense, CameraShow, CameraSoftware, CreateCameraRequest,
    ScanActive, ScanCompleted,
};
use crate::query::{CameraFileQuery, CameraFileQueryResult};
use crate::scan::{Scan, ScanActor, ScanKindPending, SCAN_EPOCH};
use vstd::prelude::*;

verus! {

impl StoreView {
    /// The number of queued scans and of retries that were asked for.
    pub open spec fn waiting(self) -> nat {
        self.pending.len() + self.completed.filter(|c: ScanCompleted| c.retry_pending).len()
    }

    /// The store after up to `n` scans have started at `now`, one after
    /// another, each the next that can start.
    pub open spec fn after_starts(self, now: i64, n: nat) -> StoreView
        decreases n,
    {
        if n == 0 {
            self
        } else {
            match self.next(now) {
                Some((_, after)) => after.after_starts(now, (n - 1) as nat),
                None => self,
            }
        }
    }

    /// The rows of the up to `n` scans that start at `now`, one after
    /// another, each the next that can start.
    pub open spec fn starts(self, now: i64, n: nat) -> Seq<ScanActive>
        decreases n,
    {
        if n == 0 {
            Seq::empty()
        } else {
            match self.next(now) {
                Some((row, after)) => seq![row] + after.starts(now, (n - 1) as nat),
                None => Seq::empty(),
            }
        }
    }

    /// One more start after `n` that took place.
    pub proof fn lemma_one_more_start(self, now: i64, n: nat)
        requires
            self.starts(now, n).len() == n,
        ensures
            self.after_starts(now, n + 1) == match self.after_starts(now, n).next(now) {
                Some((_, after)) => after,
                None => self.after_starts(now, n),
            },
            self.starts(now, n + 1) == match self.after_starts(now, n).next(now) {
                Some((row, _)) => self.starts(now, n).push(row),
                None => self.starts(now, n),
            },
        decreases n,
    {
        reveal_with_fuel(StoreView::after_starts, 3);
        reveal_with_fuel(StoreView::starts, 3);
        if n == 0 {
            match self.next(now) {
                Some((row, after)) => {
                    assert(after.starts(now, 0) =~= Seq::empty());
                    assert(seq![row] + Seq::<ScanActive>::empty() =~= Seq::<ScanActive>::empty().push(
                        row,
                    ));
                },
                None => {},
            }
        } else {
            match self.next(now) {
                Some((row, after)) => {
                    assert(after.starts(now, (n - 1) as nat).len() == n - 1);
                    after.lemma_one_more_start(now, (n - 1) as nat);
                    match after.after_starts(now, (n - 1) as nat).next(now) {
                        Some((row2, _)) => {
                            assert(seq![row] + after.starts(now, (n - 1) as nat).push(row2) =~= (
                            seq![row] + after.starts(now, (n - 1) as nat)).push(row2));
                        },
                        None => {},
                    }
                },
                None => {},
            }
        }
    }
}

impl Scan {
    /// Whether `actors` are the scans that start when everything that can
    /// start at `now` does, and `after` is the store `before` once they have:
    /// the scans started one after another, each the next that could, until
    /// the store was idle. The camera of each is then among the running
    /// scans.
    pub open spec fn ran_pending(
        before: StoreView,
        after: StoreView,
        actors: Seq<ScanActor>,
        now: i64,
    ) -> bool {
        &&& after == before.after_starts(now, actors.len())
        &&& before.starts(now, actors.len()).len() == actors.len()
        &&& forall|k: int|
            0 <= k < actors.len() ==> (#[trigger] actors[k]).is_fresh(
                before.starts(now, actors.len())[k],
            )
        &&& forall|k: int|
            0 <= k < actors.len() ==> after.is_active((#[trigger] actors[k]).camera_id)
        &&& after.idle()
    }

    /// Starts, at `now`, every scan that can start, and returns their
    /// actors in the order in which they started. Each actor is to be handed
    /// to a worker of its own.
    pub fn run_pending_at(store: &mut Store, now: i64) -> (actors: Vec<ScanActor>)
        requires
            old(store).wf(),
        ensures
            final(store).wf(),
            Self::ran_pending(old(store)@, final(store)@, actors@, now),
            forall|k: int|
                0 <= k < actors@.len() ==> final(store)@.is_active((#[trigger] actors@[k]).camera_id),
    {
        let mut actors: Vec<ScanActor> = Vec::new();
        loop
            invariant
                store.wf(),
                store@ == old(store)@.after_starts(now, actors@.len()),
                old(store)@.starts(now, actors@.len()).len() == actors@.len(),
                forall|k: int|
                    0 <= k < actors@.len() ==> (#[trigger] actors@[k]).is_fresh(
                        old(store)@.starts(now, actors@.len())[k],
                    ),
                forall|k: int|
                    0 <= k < actors@.len() ==> store@.is_active((#[trigger] actors@[k]).camera_id),
            ensures
                Self::ran_pending(old(store)@, store@, actors@, now),
                forall|k: int|
                    0 <= k < actors@.len() ==> store@.is_active((#[trigger] actors@[k]).camera_id),
                store.wf(),
            decreases store@.waiting(),
        {
            let ghost n = actors@.len();
            let ghost here = store@;
            proof {
                old(store)@.lemma_one_more_start(now, n);
                here.lemma_next_waits(now);
            }
            match ScanActor::next(store, now) {
                Some(actor) => {
                    proof {
                        let row = here.next(now).unwrap().0;
                        assert forall|k: int| 0 <= k < n implies store@.is_active(
                            (#[trigger] actors@[k]).camera_id,
                        ) by {
                            here.lemma_next_keeps_active(now, actors@[k].camera_id);
                        }
                    }
                    actors.push(actor);
                },
                None => {
                    break ;
                },
            }
        }
        actors
    }
}

impl Scan {
    /// Starts every scan that can start, at the time the clock gives.
    pub fn run_pending(store: &mut Store) -> (actors: Vec<ScanActor>)
        requires
            old(store).wf(),
        ensures
            final(store).wf(),
            exists|now: i64|
                now >= SCAN_EPOCH && Self::ran_pending(old(store)@, final(store)@, actors@, now),
            forall|k: int|
                0 <= k < actors@.len() ==> final(store)@.is_active((#[trigger] actors@[k]).camera_id),
    {
        let now = unix_millis();
        let actors = Self::run_pending_at(store, now);
        assert(Self::ran_pending(old(store)@, store@, actors@, now));
        actors
    }

    /// Whether `r` and `after` are the outcome of a request made at `now` to
    /// scan camera `camera_id`: the request is queued in place of what was
    /// queued for the camera, and then everything that can start does. When
    /// the camera does not exist the outcome is `NotFound`, else when the
    /// range of the request ends before it starts it is `Conflict`; neither
    /// changes the store.
    pub open spec fn queued(
        before: StoreView,
        after: StoreView,
        r: Result<Vec<ScanActor>, DbError>,
        camera_id: i64,
        kind: ScanKindPending,
        now: i64,
    ) -> bool {
        match r {
            Ok(actors) => before.has_camera(camera_id) && kind.range_at(now).0 <= kind.range_at(
                now,
            ).1 && Self::ran_pending(
                before.queue(kind.pending_at(camera_id, now)),
                after,
                actors@,
                now,
            ),
            Err(e) => after == before && if !before.has_camera(camera_id) {
                e == DbError::NotFound
            } else {
                e == DbError::Conflict && kind.range_at(now).0 > kind.range_at(now).1
            },
        }
    }

    /// Queues a scan of camera `camera_id`, requested at `now`, and starts
    /// every scan that can start. Returns the actors of the scans that
    /// started.
    pub fn queue_at(store: &mut Store, camera_id: i64, kind: ScanKindPending, now: i64) -> (r:
        Result<Vec<ScanActor>, DbError>)
        requires
            old(store).wf(),
        ensures
            final(store).wf(),
            Self::queued(old(store)@, final(store)@, r, camera_id, kind, now),
    {
        match Self::queue_db(store, kind, camera_id, now) {
            Ok(()) => Ok(Self::run_pending_at(store, now)),
            Err(e) => Err(e),
        }
    }

    /// Queues a scan of camera `camera_id` and starts every scan that can
    /// start, at the time the clock gives.
    pub fn queue(store: &mut Store, camera_id: i64, kind: ScanKindPending) -> (r: Result<
        Vec<ScanActor>,
        DbError,
    >)
        requires
            old(store).wf(),
        ensures
            final(store).wf(),
            r is Ok <==> old(store)@.has_camera(camera_id) && kind.ordered(),
            exists|now: i64|
                now >= SCAN_EPOCH && Self::queued(
                    old(store)@,
                    final(store)@,
                    r,
                    camera_id,
                    kind,
                    now,
                ),
    {
        let now = unix_millis();
        let r = Self::queue_at(store, camera_id, kind, now);
        assert(Self::queued(old(store)@, store@, r, camera_id, kind, now));
        r
    }

    /// Whether `r` and `after` are the outcome of a request made at `now` to
    /// scan every camera: one request per camera is queued, and then
    /// everything that can start does. When there is a camera and the range
    /// of the request ends before it starts, the outcome is `Conflict` and
    /// the store is unchanged.
    pub open spec fn queued_all(
        before: StoreView,
        after: StoreView,
        r: Result<Vec<ScanActor>, DbError>,
        kind: ScanKindPending,
        now: i64,
    ) -> bool {
        match r {
            Ok(actors) => !(before.cameras.len() > 0 && kind.range_at(now).0 > kind.range_at(
                now,
            ).1) && Self::ran_pending(before.queue_all(kind, now), after, actors@, now),
            Err(e) => after == before && e == DbError::Conflict && before.cameras.len() > 0
                && kind.range_at(now).0 > kind.range_at(now).1,
        }
    }

    /// Queues a scan of every camera, requested at `now`, and starts every
    /// scan that can start. Returns the actors of the scans that started.
    pub fn queue_all_at(store: &mut Store, kind: ScanKindPending, now: i64) -> (r: Result<
        Vec<ScanActor>,
        DbError,
    >)
        requires
            old(store).wf(),
        ensures
            final(store).wf(),
            Self::queued_all(old(store)@, final(store)@, r, kind, now),
    {
        match Self::queue_all_db(store, kind, now) {
            Ok(()) => Ok(Self::run_pending_at(store, now)),
            Err(e) => Err(e),
        }
    }

    /// Queues a scan of every camera and starts every scan that can start,
    /// at the time the clock gives.
    pub fn queue_all(store: &mut Store, kind: ScanKindPending) -> (r: Result<
        Vec<ScanActor>,
        DbError,
    >)
        requires
            old(store).wf(),
        ensures
            final(store).wf(),
            r is Ok <==> old(store)@.cameras.len() == 0 || kind.ordered(),
            exists|now: i64|
                now >= SCAN_EPOCH && Self::queued_all(old(store)@, final(store)@, r, kind, now),
    {
        let now = unix_millis();
        let r = Self::queue_all_at(store, kind, now);
        assert(Self::queued_all(old(store)@, store@, r, kind, now));
        r
    }
}

impl ScanCompleted {
    /// Whether `r` and `after` are the outcome of a request made at `now` to
    /// run the completed scan `id` again: the retry is asked for, and then
    /// everything that can start does. When there is no such scan or it
    /// allows no retry, the outcome is `NotFound` and the store is unchanged.
    pub open spec fn retried(
        before: StoreView,
        after: StoreView,
        r: Result<Vec<ScanActor>, DbError>,
        id: i64,
        now: i64,
    ) -> bool {
        match r {
            Ok(actors) => before.can_retry(id) && Scan::ran_pending(
                before.retry(id),
                after,
                actors@,
                now,
            ),
            Err(e) => after == before && e == DbError::NotFound && !before.can_retry(id),
        }
    }

    /// Asks for the completed scan `id` to run again and starts, at `now`,
    /// every scan that can start. Returns the actors of the scans that
    /// started.
    pub fn retry_at(store: &mut Store, id: i64, now: i64) -> (r: Result<Vec<ScanActor>, DbError>)
        requires
            old(store).wf(),
        ensures
            final(store).wf(),
            Self::retried(old(store)@, final(store)@, r, id, now),
    {
        match Self::retry_db(store, id) {
            Ok(()) => Ok(Scan::run_pending_at(store, now)),
            Err(e) => Err(e),
        }
    }

    /// Asks for the completed scan `id` to run again and starts every scan
    /// that can start, at the time the clock gives.
    pub fn retry(store: &mut Store, id: i64) -> (r: Result<Vec<ScanActor>, DbError>)
        requires
            old(store).wf(),
        ensures
            final(store).wf(),
            r is Ok <==> old(store)@.can_retry(id),
            exists|now: i64|
                now >= SCAN_EPOCH && Self::retried(old(store)@, final(store)@, r, id, now),
    {
        let now = unix_millis();
        let r = Self::retry_at(store, id, now);
        assert(Self::retried(old(store)@, store@, r, id, now));
        r
    }
}

impl CameraFile {
    /// Whether `r` and `after` are the outcome of the query made at `now`. A
    /// query for the first page first asks for a cursor scan of every camera
    /// and starts every scan that can start; a query for any other page
    /// leaves the store as it is. Either way the page is read from the index
    /// as it stands.
    pub open spec fn queried(
        before: StoreView,
        after: StoreView,
        r: (CameraFileQueryResult, Vec<ScanActor>),
        filter: CameraFileQueryFilter,
        cursor: CameraFileQueryCursor,
        limit: int,
        now: i64,
    ) -> bool {
        &&& r.0.answers(before.files, filter, cursor, limit)
        &&& after.files == before.files
        &&& if cursor is Start {
            Scan::ran_pending(before.queue_all(ScanKindPending::Cursor, now), after, r.1@, now)
        } else {
            after == before && r.1@.len() == 0
        }
    }

    /// Answers the query at `now`, and returns with the page the actors of
    /// the scans that the query started.
    pub fn query_at(store: &mut Store, query: CameraFileQuery<'_>, now: i64) -> (r: (
        CameraFileQueryResult,
        Vec<ScanActor>,
    ))
        requires
            old(store).wf(),
        ensures
            final(store).wf(),
            Self::queried(
                old(store)@,
                final(store)@,
                r,
                *query.filter,
                query.cursor,
                query.limit as int,
                now,
            ),
    {
        let actors = match query.cursor {
            CameraFileQueryCursor::Start => {
                match Scan::queue_all_at(store, ScanKindPending::Cursor, now) {
                    Ok(actors) => actors,
                    Err(_) => Vec::new(),
                }
            },
            _ => Vec::new(),
        };
        proof {
            old(store)@.lemma_starts_keep_files(now, actors@.len());
            if query.cursor is Start {
                old(store)@.queue_all(ScanKindPending::Cursor, now).lemma_starts_keep_files(
                    now,
                    actors@.len(),
                );
            }
        }
        let page = Self::query_db(store, query);
        (page, actors)
    }

    /// Answers the query at the time the clock gives.
    pub fn query(store: &mut Store, query: CameraFileQuery<'_>) -> (r: (
        CameraFileQueryResult,
        Vec<ScanActor>,
    ))
        requires
            old(store).wf(),
        ensures
            final(store).wf(),
            exists|now: i64|
                now >= SCAN_EPOCH && Self::queried(
                    old(store)@,
                    final(store)@,
                    r,
                    *query.filter,
                    query.cursor,
                    query.limit as int,
                    now,
                ),
    {
        let now = unix_millis();
        let ghost filter = *query.filter;
        let ghost cursor = query.cursor;
        let ghost limit = query.limit as int;
        let r = Self::query_at(store, query, now);
        assert(Self::queried(old(store)@, store@, r, filter, cursor, limit, now));
        r
    }
}

impl StoreView {
    /// Starting scans changes neither the cameras' ids nor the files.
    pub proof fn lemma_starts_keep_files(self, now: i64, n: nat)
        ensures
            self.after_starts(now, n).files == self.files,
        decreases n,
    {
        if n > 0 {
            match self.next(now) {
                Some((_, after)) => {
                    after.lemma_starts_keep_files(now, (n - 1) as nat);
                },
                None => {},
            }
        }
    }
}

impl CreateCameraRequest {
    /// Whether `r` and `after` are the outcome of this request made at
    /// `now`: the camera is added, a full scan of it is queued, and then
    /// everything that can start does. When `now` lies before the epoch, the
    /// full scan cannot be queued and the outcome is `Conflict`; else, when
    /// no camera id is left, it is `Full`. A request that fails changes
    /// nothing.
    pub open spec fn created(
        &self,
        before: StoreView,
        after: StoreView,
        r: Result<(i64, Vec<ScanActor>), DbError>,
        now: i64,
    ) -> bool {
        let id = before.next_camera_id as i64;
        let added = StoreView {
            cameras: before.cameras.push(after.camera(id)),
            next_camera_id: id + 1,
            ..before
        };
        match r {
            Ok((new_id, actors)) => {
                &&& new_id == id
                &&& before.next_camera_id < i64::MAX
                &&& now >= SCAN_EPOCH
                &&& self.creates(after.camera(id), id, now)
                &&& Scan::ran_pending(
                    added.queue(ScanKindPending::Full.pending_at(id, now)),
                    after,
                    actors@,
                    now,
                )
            },
            Err(e) => after == before && if now < SCAN_EPOCH {
                e == DbError::Conflict
            } else {
                e == DbError::Full && before.next_camera_id == i64::MAX
            },
        }
    }

    /// Adds the camera at `now`, queues a full scan of it, and starts every
    /// scan that can start. Returns the camera's id and the actors of the
    /// scans that started.
    pub fn create_at(self, store: &mut Store, now: i64) -> (r: Result<
        (i64, Vec<ScanActor>),
        DbError,
    >)
        requires
            old(store).wf(),
        ensures
            final(store).wf(),
            self.created(old(store)@, final(store)@, r, now),
    {
        if now < SCAN_EPOCH {
            return Err(DbError::Conflict);
        }
        let ghost before = store@;
        let id = match self.create_db(store, now) {
            Ok(id) => id,
            Err(e) => {
                return Err(e);
            },
        };
        let ghost added = store@;
        proof {
            assert(added.cameras =~= before.cameras.push(added.cameras.last()));
            assert(added.cameras[before.cameras.len() as int].id == id);
            added.lemma_camera_is(before.cameras.len() as int);
        }
        match Scan::queue_at(store, id, ScanKindPending::Full, now) {
            Ok(actors) => {
                proof {
                    let queued = added.queue(ScanKindPending::Full.pending_at(id, now));
                    queued.lemma_starts_keep_cameras(now, actors@.len());
                    assert(store@.cameras == added.cameras);
                    store@.lemma_camera_is(before.cameras.len() as int);
                }
                Ok((id, actors))
            },
            Err(e) => Err(e),
        }
    }

    /// Adds the camera, queues a full scan of it, and starts every scan that
    /// can start, at the time the clock gives.
    pub fn create(self, store: &mut Store) -> (r: Result<(i64, Vec<ScanActor>), DbError>)
        requires
            old(store).wf(),
        ensures
            final(store).wf(),
            r is Ok <==> old(store)@.next_camera_id < i64::MAX,
            exists|now: i64|
                now >= SCAN_EPOCH && self.created(old(store)@, final(store)@, r, now),
    {
        let now = unix_millis();
        let ghost me = self;
        let r = self.create_at(store, now);
        assert(me.created(old(store)@, store@, r, now));
        r
    }
}

impl StoreView {
    /// Starting scans changes no camera.
    pub proof fn lemma_starts_keep_cameras(self, now: i64, n: nat)
        ensures
            self.after_starts(now, n).cameras == self.cameras,
        decreases n,
    {
        if n > 0 {
            match self.next(now) {
                Some((_, after)) => {
                    after.lemma_starts_keep_cameras(now, (n - 1) as nat);
                },
                None => {},
            }
        }
    }
}

impl CameraShow {
    /// Everything the store knows about the camera `id`; `NotFound` when
    /// there is no such camera.
    pub fn find(store: &Store, id: i64) -> (r: Result<CameraShow, DbError>)
        requires
            store.wf(),
        ensures
            r is Ok <==> store@.has_camera(id),
            r matches Err(e) ==> e == DbError::NotFound,
            r matches Ok(show) ==> {
                let rec = store@.camera(id);
                &&& show.id == id
                &&& show.ip == rec.ip
                &&& show.username == rec.username
                &&& show.refreshed_at == rec.refreshed_at
                &&& show.created_at == rec.created_at
                &&& show.detail == rec.detail
                &&& show.software == rec.software
                &&& show.licenses@ == rec.licenses@
                &&& show.file_total == store@.files.filter(
                    |f: CameraFile| f.camera_id == id,
                ).len()
            },
    {
        let detail = match CameraDetail::find(store, id) {
            Ok(d) => d,
            Err(e) => {
                return Err(e);
            },
        };
        let software = match CameraSoftware::find(store, id) {
            Ok(s) => s,
            Err(e) => {
                return Err(e);
            },
        };
        let licenses = CameraLicense::list(store, id);
        let camera = match crate::models::Camera::find(store, id) {
            Ok(c) => c,
            Err(e) => {
                return Err(e);
            },
        };
        let mut ids: Vec<i64> = Vec::new();
        ids.push(id);
        let filter = CameraFileQueryFilter::new().camera_ids(ids);
        let file_total = CameraFile::total(store, &filter);
        proof {
            let of_camera = |f: CameraFile| f.camera_id == id;
            let admitted = |f: CameraFile| filter.matches(f) && CameraFileQueryCursor::Start.admits(f);
            assert forall|f: CameraFile| #[trigger] admitted(f) == of_camera(f) by {
                assert(filter.camera_ids@[0] == id);
            }
            crate::seqs::lemma_filter_same(store@.files, admitted, of_camera);
        }
        Ok(
            CameraShow {
                id: camera.id,
                ip: camera.ip,
                username: camera.username,
                refreshed_at: camera.refreshed_at,
                created_at: camera.created_at,
                detail,
                software,
                licenses,
                file_total: file_total as u64,
            },
        )
    }
}

} // verus!
