use camera_scan::db::new;
use camera_scan::db::snapshot::Snapshot;
use camera_scan::error::DbError;
use camera_scan::filter::CameraFileQueryFilter;
use camera_scan::models::{
    Camera, CameraDetail, CameraFile, CameraRecord, CameraSoftware, CreateCameraRequest,
    ScanActive, ScanCompleted, ScanKind, ScanPending,
};
use camera_scan::page::Page;
use camera_scan::range::ScanRange;
use camera_scan::scan::{Scan, ScanActor, ScanKindPending};

fn camera(id: i64) -> CameraRecord {
    CameraRecord {
        id,
        ip: format!("10.0.0.{}", id),
        username: "admin".to_string(),
        password: "secret".to_string(),
        scan_cursor: 40,
        refreshed_at: 41,
        created_at: 42,
        detail: CameraDetail::blank(),
        software: CameraSoftware::blank(),
        licenses: Vec::new(),
    }
}

fn file(camera_id: i64, start_time: i64) -> CameraFile {
    CameraFile {
        camera_id,
        file_path: format!("/{}/{}", camera_id, start_time),
        kind: "dav".to_string(),
        size: 1,
        start_time,
        end_time: start_time + 1,
        events: "[]".to_string(),
    }
}

fn completed(id: i64, camera_id: i64) -> ScanCompleted {
    ScanCompleted {
        id,
        camera_id,
        kind: ScanKind::Full,
        range_start: 0,
        range_end: 10,
        started_at: 10,
        range_cursor: 0,
        upserted: 1,
        deleted: 0,
        percent: 100,
        duration: 3,
        success: false,
        error: "failed".to_string(),
        can_retry: true,
        retry_pending: false,
    }
}

fn pending(camera_id: i64) -> ScanPending {
    ScanPending { camera_id, kind: ScanKind::Cursor, range_start: 5, range_end: 5 }
}

fn active(camera_id: i64) -> ScanActive {
    ScanActive {
        camera_id,
        kind: ScanKind::Full,
        range_start: 0,
        range_end: 10,
        started_at: 10,
        range_cursor: 10,
        percent: 0,
        upserted: 0,
        deleted: 0,
    }
}

fn good() -> Snapshot {
    Snapshot {
        cameras: vec![camera(1), camera(3)],
        pending: vec![pending(3)],
        active: vec![active(1), active(3)],
        completed: vec![completed(2, 1), completed(5, 3)],
        files: vec![file(3, 9), file(1, 9), file(1, 2)],
        next_camera_id: 4,
        next_completed_id: 6,
    }
}

#[test]
fn restart_drops_active_scans_and_keeps_the_rest() {
    let mut store = good().restore().unwrap();
    assert!(ScanActive::list(&store).is_empty());
    assert_eq!(ScanPending::list(&store), vec![pending(3)]);
    assert_eq!(Camera::total(&store), 2);
    assert_eq!(ScanCompleted::list(&store, Page::new(1, 10)).total_items, 2);
    assert_eq!(CameraFile::total(&store, &CameraFileQueryFilter::new()), 3);

    // camera 1 was being scanned: it is not queued again, and can be
    let started = Scan::run_pending_at(&mut store, 100);
    assert_eq!(started.len(), 1);
    assert_eq!(started[0].camera_id, 3);
    assert_eq!(started[0].range.start, 40);
    assert_eq!(Scan::queue_db(&mut store, ScanKindPending::Full, 1, 200), Ok(()));
    assert_eq!(ScanActor::next(&mut store, 201).unwrap().camera_id, 1);

    // ids go on where they were
    let req = CreateCameraRequest {
        ip: "10.0.0.9".to_string(),
        username: "admin".to_string(),
        password: "secret".to_string(),
    };
    assert_eq!(req.create_db(&mut store, 300), Ok(4));
}

#[test]
fn snapshot_holds_every_table() {
    let mut store = good().restore().unwrap();
    Scan::run_pending_at(&mut store, 100);
    let s = store.snapshot();
    assert_eq!(s.cameras.len(), 2);
    assert_eq!(s.cameras[1].id, 3);
    assert_eq!(s.cameras[1].ip, "10.0.0.3");
    assert_eq!(s.cameras[1].scan_cursor, 40);
    assert!(s.pending.is_empty());
    assert_eq!(s.active.len(), 1);
    assert_eq!(s.active[0].camera_id, 3);
    assert_eq!(s.completed.len(), 2);
    assert_eq!(s.completed[1].id, 5);
    assert_eq!(s.completed[1].error, "failed");
    let keys: Vec<(i64, i64)> = s.files.iter().map(|f| (f.camera_id, f.start_time)).collect();
    assert_eq!(keys, vec![(3, 9), (1, 9), (1, 2)]);
    assert_eq!((s.next_camera_id, s.next_completed_id), (4, 6));
    let again = s.restore().unwrap();
    assert!(ScanActive::list(&again).is_empty());
    assert_eq!(Camera::total(&again), 2);
}

#[test]
fn snapshot_of_a_new_store_restores_to_a_new_store() {
    let s = new().snapshot();
    assert_eq!((s.next_camera_id, s.next_completed_id), (1, 1));
    let store = s.restore().unwrap();
    assert_eq!(Camera::total(&store), 0);
}

fn refused(change: impl Fn(&mut Snapshot)) -> bool {
    let mut s = good();
    change(&mut s);
    match s.restore() {
        Ok(_) => false,
        Err(e) => e == DbError::Conflict,
    }
}

#[test]
fn restore_refuses_rows_that_break_a_rule() {
    assert!(refused(|s| s.cameras[1].id = 1));
    assert!(refused(|s| s.cameras[0].id = 0));
    assert!(refused(|s| s.cameras.swap(0, 1)));
    assert!(refused(|s| s.next_camera_id = 3));
    assert!(refused(|s| s.next_camera_id = 0));
    assert!(refused(|s| s.pending.push(pending(3))));
    assert!(refused(|s| s.pending.push(pending(2))));
    assert!(refused(|s| s.pending[0].range_end = 4));
    assert!(refused(|s| s.completed[0].camera_id = 2));
    assert!(refused(|s| s.completed[1].id = 2));
    assert!(refused(|s| s.completed.swap(0, 1)));
    assert!(refused(|s| s.next_completed_id = 5));
    assert!(refused(|s| s.files.swap(0, 1)));
    assert!(refused(|s| s.files[1].camera_id = 3));
    assert!(refused(|s| s.files[2].camera_id = 7));
    assert!(!refused(|s| s.active.push(active(9))));
    assert!(!refused(|s| s.pending.push(pending(1))));
    assert!(!refused(|s| s.next_camera_id = i64::MAX));
}

#[test]
fn create_fails_when_no_camera_id_is_left() {
    let mut s = good();
    s.next_camera_id = i64::MAX;
    let mut store = s.restore().unwrap();
    let req = CreateCameraRequest {
        ip: "10.0.0.9".to_string(),
        username: "admin".to_string(),
        password: "secret".to_string(),
    };
    assert_eq!(req.create_db(&mut store, 300), Err(DbError::Full));
    assert_eq!(Camera::total(&store), 2);
    let req = CreateCameraRequest {
        ip: "10.0.0.9".to_string(),
        username: "admin".to_string(),
        password: "secret".to_string(),
    };
    assert_eq!(req.create_at(&mut store, 300).unwrap_err(), DbError::Full);
    let req = CreateCameraRequest {
        ip: "10.0.0.9".to_string(),
        username: "admin".to_string(),
        password: "secret".to_string(),
    };
    assert_eq!(req.create_at(&mut store, -1).unwrap_err(), DbError::Conflict);

    let mut s = good();
    s.next_camera_id = i64::MAX - 1;
    let mut store = s.restore().unwrap();
    let req = CreateCameraRequest {
        ip: "10.0.0.9".to_string(),
        username: "admin".to_string(),
        password: "secret".to_string(),
    };
    assert_eq!(req.create_db(&mut store, 300), Ok(i64::MAX - 1));
}

#[test]
fn end_fails_when_no_history_id_is_left() {
    let mut s = good();
    s.next_completed_id = i64::MAX;
    let mut store = s.restore().unwrap();
    Scan::queue_db(&mut store, ScanKindPending::Manual(ScanRange::new(0, 5)), 1, 100).unwrap();
    let mut actor = ScanActor::next(&mut store, 101).unwrap();
    assert_eq!(actor.camera_id, 3);
    actor.upserted = 1;
    assert_eq!(actor.end(&mut store, 102), Err(DbError::Full));
    assert_eq!(ScanActive::list(&store).len(), 1);
    assert_eq!(ScanCompleted::list(&store, Page::new(1, 10)).total_items, 2);

    // a run that is not kept needs no id
    let quiet = ScanActor::cursor(camera_scan::scan::ScanCamera { id: 3, scan_cursor: 0 }, 101);
    assert_eq!(quiet.end(&mut store, 103), Ok(()));
    assert!(ScanActive::list(&store).is_empty());
}
