//! The file index and its queries.

use crate::cursor::CameraFileQueryCursor;
use crate::db::{camera_ids, files_wf, Store, StoreView};
use crate::error::DbError;
use crate::filter::CameraFileQueryFilter;
use crate::models::{CameraFile, CameraScanResult};
use crate::query::{page, window, CameraFileQuery, CameraFileQueryResult};
use crate::seqs::{
    lemma_filter_pairwise, lemma_filter_prefix, lemma_filter_suffix, lemma_filter_take, slice_of,
};
use vstd::prelude::*;

verus! {

impl CameraFileQueryCursor {
    /// Whether a page that starts at this position may hold the file.
    pub fn accepts(&self, f: &CameraFile) -> (b: bool)
        ensures
            b == self.admits(*f),
    {
        match self {
            CameraFileQueryCursor::Start => true,
            CameraFileQueryCursor::After((id, time)) => *time > f.start_time || (*time
                == f.start_time && *id > f.camera_id),
            CameraFileQueryCursor::Before((id, time)) => f.start_time > *time || (f.start_time
                == *time && f.camera_id > *id),
        }
    }
}

impl Store {
    /// Counts the files of the window.
    fn count_window(&self, filter: &CameraFileQueryFilter, cursor: CameraFileQueryCursor) -> (n:
        usize)
        ensures
            n == window(self@.files, *filter, cursor).len(),
    {
        let ghost keep = |f: CameraFile| filter.matches(f) && cursor.admits(f);
        let mut n: usize = 0;
        let mut i: usize = 0;
        while i < self.files.len()
            invariant
                i <= self.files.len(),
                n <= i,
                keep == (|f: CameraFile| filter.matches(f) && cursor.admits(f)),
                n == self.files@.take(i as int).filter(keep).len(),
            decreases self.files.len() - i,
        {
            proof {
                lemma_filter_take(self.files@, keep, i as int);
            }
            if filter.accepts(&self.files[i]) && cursor.accepts(&self.files[i]) {
                n += 1;
            }
            i += 1;
        }
        assert(self.files@.take(i as int) =~= self.files@);
        n
    }

    /// Copies out the files of the window from rank `lo` up to rank `hi`.
    fn select_window(
        &self,
        filter: &CameraFileQueryFilter,
        cursor: CameraFileQueryCursor,
        lo: usize,
        hi: usize,
    ) -> (r: Vec<CameraFile>)
        requires
            lo <= hi,
        ensures
            r@ == slice_of(window(self@.files, *filter, cursor), lo as int, hi as int),
    {
        let ghost keep = |f: CameraFile| filter.matches(f) && cursor.admits(f);
        let mut out: Vec<CameraFile> = Vec::new();
        let mut n: usize = 0;
        let mut i: usize = 0;
        while i < self.files.len()
            invariant
                i <= self.files.len(),
                n <= i,
                lo <= hi,
                keep == (|f: CameraFile| filter.matches(f) && cursor.admits(f)),
                n == self.files@.take(i as int).filter(keep).len(),
                out@ == slice_of(self.files@.take(i as int).filter(keep), lo as int, hi as int),
            decreases self.files.len() - i,
        {
            proof {
                lemma_filter_take(self.files@, keep, i as int);
            }
            if filter.accepts(&self.files[i]) && cursor.accepts(&self.files[i]) {
                if lo <= n && n < hi {
                    out.push(self.files[i].clone());
                }
                n += 1;
            }
            assert(out@ =~= slice_of(
                self.files@.take(i + 1).filter(keep),
                lo as int,
                hi as int,
            ));
            i += 1;
        }
        assert(self.files@.take(i as int) =~= self.files@);
        out
    }
}

/// A window of files in canonical order is in canonical order.
pub proof fn lemma_window_sorted(
    files: Seq<CameraFile>,
    filter: CameraFileQueryFilter,
    cursor: CameraFileQueryCursor,
)
    requires
        CameraFile::sorted(files),
    ensures
        CameraFile::sorted(window(files, filter, cursor)),
{
    lemma_filter_pairwise(
        files,
        |f: CameraFile| filter.matches(f) && cursor.admits(f),
        |a: CameraFile, b: CameraFile| a.before(&b),
    );
}

/// A page of files in canonical order is in canonical order.
pub proof fn lemma_page_sorted(
    files: Seq<CameraFile>,
    filter: CameraFileQueryFilter,
    cursor: CameraFileQueryCursor,
    limit: int,
)
    requires
        CameraFile::sorted(files),
        0 <= limit,
    ensures
        CameraFile::sorted(page(files, filter, cursor, limit)),
{
    lemma_window_sorted(files, filter, cursor);
}

/// The index after `file` is put in: it stands at its place in canonical
/// order, in place of the file that had its key, if there was one.
pub open spec fn upsert(files: Seq<CameraFile>, file: CameraFile) -> Seq<CameraFile> {
    files.filter(|f: CameraFile| f.before(&file)).push(file) + files.filter(
        |f: CameraFile| file.before(&f),
    )
}

/// Putting a file of a known camera into a valid index: the files before
/// position `p` come before it, those from `q` on come after it, and the
/// index stays valid.
pub proof fn lemma_upsert(files: Seq<CameraFile>, ids: Set<i64>, file: CameraFile, p: int, q: int)
    requires
        files_wf(files, ids),
        ids.contains(file.camera_id),
        0 <= p <= q <= files.len(),
        q <= p + 1,
        forall|i: int| 0 <= i < p ==> (#[trigger] files[i]).before(&file),
        p < files.len() ==> !files[p].before(&file),
        q == p + 1 <==> p < files.len() && !file.before(&files[p]),
    ensures
        upsert(files, file) == files.take(p).push(file) + files.skip(q),
        files_wf(upsert(files, file), ids),
{
    let above = |f: CameraFile| f.before(&file);
    let below = |f: CameraFile| file.before(&f);
    assert forall|i: int| p <= i < files.len() implies !above(#[trigger] files[i]) by {
        if i > p {
            assert(files[p].before(&files[i]));
        }
    }
    assert forall|i: int| 0 <= i < q implies !below(#[trigger] files[i]) by {
        if i < p {
            assert(files[i].before(&file));
        }
    }
    assert forall|i: int| q <= i < files.len() implies below(#[trigger] files[i]) by {
        if q < files.len() {
            if i > q {
                assert(files[q].before(&files[i]));
            }
            if q == p + 1 {
                assert(files[p].before(&files[q]));
            }
        }
    }
    lemma_filter_prefix(files, above, p);
    lemma_filter_suffix(files, below, q);
    let after = files.take(p).push(file) + files.skip(q);
    assert forall|i: int, j: int| #![trigger after[i], after[j]] 0 <= i < j < after.len() implies after[i].before(
        &after[j],
    ) by {
        if j < p {
            assert(after[i] == files[i] && after[j] == files[j]);
        } else if j == p {
            assert(after[i] == files[i]);
        } else if i < p {
            assert(after[i] == files[i] && after[j] == files[j - p - 1 + q]);
            assert(files[i].before(&files[j - p - 1 + q]));
        } else if i == p {
            assert(after[j] == files[j - p - 1 + q]);
        } else {
            assert(after[i] == files[i - p - 1 + q] && after[j] == files[j - p - 1 + q]);
            assert(files[i - p - 1 + q].before(&files[j - p - 1 + q]));
        }
    }
    assert forall|i: int| 0 <= i < after.len() implies ids.contains(
        (#[trigger] after[i]).camera_id,
    ) by {
        if i < p {
            assert(after[i] == files[i]);
        } else if i > p {
            assert(after[i] == files[i - p - 1 + q]);
        }
    }
}

/// Whether the index holds a file of camera `camera_id` that starts at
/// `start_time`.
pub open spec fn holds(files: Seq<CameraFile>, camera_id: i64, start_time: i64) -> bool {
    exists|i: int|
        0 <= i < files.len() && (#[trigger] files[i]).camera_id == camera_id
            && files[i].start_time == start_time
}

/// The index without the file of camera `camera_id` that starts at
/// `start_time`.
pub open spec fn without(files: Seq<CameraFile>, camera_id: i64, start_time: i64) -> Seq<
    CameraFile,
> {
    files.filter(|f: CameraFile| !(f.camera_id == camera_id && f.start_time == start_time))
}

/// The index after each of `found` is put in, in turn, as a file of camera
/// `camera_id`.
pub open spec fn upsert_each(files: Seq<CameraFile>, camera_id: i64, found: Seq<CameraFile>) -> Seq<
    CameraFile,
>
    decreases found.len(),
{
    if found.len() == 0 {
        files
    } else {
        upsert(
            upsert_each(files, camera_id, found.drop_last()),
            CameraFile { camera_id, ..found.last() },
        )
    }
}

/// The index after the files of camera `camera_id` that start at the times
/// `gone` are taken out, in turn.
pub open spec fn delete_each(files: Seq<CameraFile>, camera_id: i64, gone: Seq<i64>) -> Seq<
    CameraFile,
>
    decreases gone.len(),
{
    if gone.len() == 0 {
        files
    } else {
        without(delete_each(files, camera_id, gone.drop_last()), camera_id, gone.last())
    }
}

/// How many of the times `gone`, taken in turn, name a file of camera
/// `camera_id` that the index still holds at that turn.
pub open spec fn deleted_by(files: Seq<CameraFile>, camera_id: i64, gone: Seq<i64>) -> nat
    decreases gone.len(),
{
    if gone.len() == 0 {
        0
    } else {
        deleted_by(files, camera_id, gone.drop_last()) + if holds(
            delete_each(files, camera_id, gone.drop_last()),
            camera_id,
            gone.last(),
        ) {
            1nat
        } else {
            0nat
        }
    }
}

impl CameraFile {
    /// Writes what a scan of camera `camera_id` found to the index: each of
    /// `found` is put in as a file of the camera, then the camera's files
    /// that start at the times `gone` are taken out. Returns the number of
    /// files put in and the number taken out.
    ///
    /// Fails with `NotFound`, changing nothing, when the camera does not
    /// exist.
    pub fn sync(store: &mut Store, camera_id: i64, found: &Vec<CameraFile>, gone: &Vec<i64>) -> (r:
        Result<CameraScanResult, DbError>)
        requires
            old(store).wf(),
        ensures
            final(store).wf(),
            r is Ok <==> old(store)@.has_camera(camera_id),
            r matches Err(e) ==> e == DbError::NotFound && final(store)@ == old(store)@,
            r matches Ok(n) ==> {
                let put = upsert_each(old(store)@.files, camera_id, found@);
                &&& final(store)@ == (StoreView {
                    files: delete_each(put, camera_id, gone@),
                    ..old(store)@
                })
                &&& n.upserted == found@.len()
                &&& n.deleted == deleted_by(put, camera_id, gone@)
            },
    {
        if store.find_camera(camera_id).is_none() {
            return Err(DbError::NotFound);
        }
        let mut i: usize = 0;
        while i < found.len()
            invariant
                i <= found.len(),
                store.wf(),
                old(store)@.has_camera(camera_id),
                store@ == (StoreView {
                    files: upsert_each(old(store)@.files, camera_id, found@.take(i as int)),
                    ..old(store)@
                }),
            decreases found.len() - i,
        {
            let mut file = found[i].clone();
            file.camera_id = camera_id;
            proof {
                assert(found@.take(i + 1).drop_last() =~= found@.take(i as int));
            }
            let _ = file.upsert(store);
            i += 1;
        }
        assert(found@.take(i as int) =~= found@);
        let ghost put = store@.files;
        let mut deleted: usize = 0;
        let mut k: usize = 0;
        while k < gone.len()
            invariant
                k <= gone.len(),
                deleted <= k,
                store.wf(),
                store@ == (StoreView {
                    files: delete_each(put, camera_id, gone@.take(k as int)),
                    ..old(store)@
                }),
                deleted == deleted_by(put, camera_id, gone@.take(k as int)),
            decreases gone.len() - k,
        {
            proof {
                assert(gone@.take(k + 1).drop_last() =~= gone@.take(k as int));
            }
            if Self::delete(store, camera_id, gone[k]).is_ok() {
                deleted += 1;
            }
            k += 1;
        }
        assert(gone@.take(k as int) =~= gone@);
        Ok(CameraScanResult { upserted: found.len() as u64, deleted: deleted as u64 })
    }

    /// Puts this file into the index, in place of the file of the same
    /// camera with the same start time, if there is one.
    ///
    /// Fails with `NotFound`, changing nothing, when the file's camera does
    /// not exist.
    pub fn upsert(self, store: &mut Store) -> (r: Result<(), DbError>)
        requires
            old(store).wf(),
        ensures
            final(store).wf(),
            r is Ok <==> old(store)@.has_camera(self.camera_id),
            r matches Err(e) ==> e == DbError::NotFound && final(store)@ == old(store)@,
            r is Ok ==> final(store)@ == (StoreView {
                files: upsert(old(store)@.files, self),
                ..old(store)@
            }),
    {
        if store.find_camera(self.camera_id).is_none() {
            return Err(DbError::NotFound);
        }
        let mut p: usize = 0;
        while p < store.files.len() && (store.files[p].start_time > self.start_time || (
        store.files[p].start_time == self.start_time && store.files[p].camera_id
            > self.camera_id))
            invariant
                p <= store.files.len(),
                forall|i: int| 0 <= i < p ==> (#[trigger] store.files@[i]).before(&self),
            decreases store.files.len() - p,
        {
            p += 1;
        }
        let same = p < store.files.len() && store.files[p].start_time == self.start_time
            && store.files[p].camera_id == self.camera_id;
        let ghost q = if same {
            p + 1
        } else {
            p as int
        };
        proof {
            lemma_upsert(old(store)@.files, camera_ids(old(store)@.cameras), self, p as int, q);
        }
        if same {
            store.files.set(p, self);
        } else {
            store.files.insert(p, self);
        }
        proof {
            let before = old(store)@;
            assert(store@.files =~= before.files.take(p as int).push(self) + before.files.skip(q));
            assert(store@.cameras == before.cameras);
        }
        Ok(())
    }

    /// Takes the file of camera `camera_id` that starts at `start_time` out
    /// of the index.
    ///
    /// Fails with `NotFound`, changing nothing, when there is no such file.
    pub fn delete(store: &mut Store, camera_id: i64, start_time: i64) -> (r: Result<(), DbError>)
        requires
            old(store).wf(),
        ensures
            final(store).wf(),
            r is Ok <==> holds(old(store)@.files, camera_id, start_time),
            r matches Err(e) ==> e == DbError::NotFound && final(store)@ == old(store)@,
            final(store)@ == (StoreView {
                files: without(old(store)@.files, camera_id, start_time),
                ..old(store)@
            }),
    {
        let ghost keep = |f: CameraFile| !(f.camera_id == camera_id && f.start_time == start_time);
        let mut k: usize = 0;
        while k < store.files.len()
            invariant
                k <= store.files.len(),
                *store == *old(store),
                store.wf(),
                keep == (|f: CameraFile|
                    !(f.camera_id == camera_id && f.start_time == start_time)),
                forall|i: int|
                    0 <= i < k ==> !((#[trigger] store.files@[i]).camera_id == camera_id
                        && store.files@[i].start_time == start_time),
            decreases store.files.len() - k,
        {
            if store.files[k].camera_id == camera_id && store.files[k].start_time == start_time {
                proof {
                    let before = store@;
                    assert(before.files[k as int].camera_id == camera_id);
                    assert forall|j: int| 0 <= j < before.files.len() && j != k implies keep(
                        #[trigger] before.files[j],
                    ) by {
                        if j < k {
                            assert(before.files[j].before(&before.files[k as int]));
                        } else {
                            assert(before.files[k as int].before(&before.files[j]));
                        }
                    }
                    crate::seqs::lemma_filter_one(before.files, keep, k as int);
                    lemma_filter_pairwise(
                        before.files,
                        keep,
                        |a: CameraFile, b: CameraFile| a.before(&b),
                    );
                    let kept = before.files.filter(keep);
                    assert forall|i: int| 0 <= i < kept.len() implies camera_ids(
                        before.cameras,
                    ).contains((#[trigger] kept[i]).camera_id) by {
                        let j = if i < k {
                            i
                        } else {
                            i + 1
                        };
                        assert(kept[i] == before.files[j]);
                    }
                }
                store.files.remove(k);
                assert(store@.cameras == old(store)@.cameras);
                return Ok(());
            }
            k += 1;
        }
        proof {
            crate::seqs::lemma_filter_all(store@.files, keep);
        }
        Err(DbError::NotFound)
    }

    /// The number of files that the filter admits.
    pub fn total(store: &Store, filter: &CameraFileQueryFilter) -> (n: usize)
        ensures
            n == window(store@.files, *filter, CameraFileQueryCursor::Start).len(),
    {
        store.count_window(filter, CameraFileQueryCursor::Start)
    }

    /// Answers the query: the page of matching files at the query's
    /// position, newest first, whether a matching file comes before the page
    /// and whether one comes after it, and the tokens of its first and last
    /// file.
    ///
    /// Two files never share a start time and a camera id, so the page is in
    /// one order whenever it is asked for: later start time first, and among
    /// equal start times the higher camera id first.
    pub fn query_db(store: &Store, query: CameraFileQuery<'_>) -> (r: CameraFileQueryResult)
        requires
            store.wf(),
        ensures
            r.answers(store@.files, *query.filter, query.cursor, query.limit as int),
            r.files@.len() <= query.limit,
            CameraFile::sorted(r.files@),
    {
        let limit = query.limit as usize;
        let filter = query.filter;
        let total = store.count_window(filter, query.cursor);
        let mut has_after = false;
        let mut has_before = false;
        let files = match query.cursor {
            CameraFileQueryCursor::Start => {
                has_after = total > limit;
                store.select_window(filter, query.cursor, 0, limit)
            },
            CameraFileQueryCursor::After(_) => {
                has_after = total > limit;
                has_before = store.count_window(filter, CameraFileQueryCursor::Start) > total;
                store.select_window(filter, query.cursor, 0, limit)
            },
            CameraFileQueryCursor::Before(_) => {
                has_before = total > limit;
                has_after = store.count_window(filter, CameraFileQueryCursor::Start) > total;
                let lo = if total > limit {
                    total - limit
                } else {
                    0
                };
                store.select_window(filter, query.cursor, lo, total)
            },
        };
        proof {
            let w = window(store@.files, *filter, query.cursor);
            assert(files@ =~= page(store@.files, *filter, query.cursor, query.limit as int));
            lemma_page_sorted(store@.files, *filter, query.cursor, query.limit as int);
        }
        let n = files.len();
        let before = if n == 0 {
            String::new()
        } else {
            CameraFileQueryCursor::to(files[0].camera_id, files[0].start_time)
        };
        let after = if n == 0 {
            String::new()
        } else {
            CameraFileQueryCursor::to(files[n - 1].camera_id, files[n - 1].start_time)
        };
        CameraFileQueryResult { files, has_before, before, has_after, after, count: n as u32 }
    }
}

} // verus!
