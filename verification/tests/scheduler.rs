use camera_scan::db::{new, Store};
use camera_scan::error::{Conflict, DbError, NotFound};
use camera_scan::models::{
    CreateCameraRequest, ScanActive, ScanCompleted, ScanKind, ScanPending,
};
use camera_scan::page::Page;
use camera_scan::range::ScanRange;
use camera_scan::scan::{Scan, ScanActor, ScanCamera, ScanKindPending, SCAN_EPOCH};

fn add_camera(store: &mut Store, ip: &str, now: i64) -> i64 {
    let req = CreateCameraRequest {
        ip: ip.to_string(),
        username: "admin".to_string(),
        password: "secret".to_string(),
    };
    req.create_db(store, now).unwrap()
}

#[test]
fn new_store_is_empty() {
    let store = new();
    assert!(ScanPending::list(&store).is_empty());
    assert!(ScanActive::list(&store).is_empty());
    assert_eq!(ScanCompleted::list(&store, Page::new(1, 10)).total_items, 0);
}

#[test]
fn scan_cursor_of_a_new_camera_is_the_epoch() {
    assert_eq!(Scan::cursor(), SCAN_EPOCH);
    assert_eq!(SCAN_EPOCH, 0);
}

#[test]
fn pending_range_by_kind() {
    assert_eq!(ScanKindPending::Full.range(500), (0, 500));
    assert_eq!(ScanKindPending::Cursor.range(500), (500, 500));
    assert_eq!(ScanKindPending::Manual(ScanRange::new(3, 9)).range(500), (3, 9));
    assert_eq!(ScanKind::from(ScanKindPending::Full), ScanKind::Full);
    assert_eq!(ScanKind::from(ScanKindPending::Cursor), ScanKind::Cursor);
    assert_eq!(ScanKind::from(ScanKindPending::Manual(ScanRange::new(3, 9))), ScanKind::Manual);
}

#[test]
fn queue_for_unknown_camera_is_not_found() {
    let mut store = new();
    let r = Scan::queue_db(&mut store, ScanKindPending::Full, 7, 100);
    assert_eq!(r, Err(DbError::NotFound));
    assert!(NotFound == r.unwrap_err());
    assert!(ScanPending::list(&store).is_empty());
}

#[test]
fn queue_with_inverted_range_is_a_conflict() {
    let mut store = new();
    let id = add_camera(&mut store, "10.0.0.1", 1);
    let r = Scan::queue_db(&mut store, ScanKindPending::Manual(ScanRange::new(9, 3)), id, 100);
    assert_eq!(r, Err(DbError::Conflict));
    assert!(Conflict == r.unwrap_err());
    assert!(!(NotFound == DbError::Conflict));
    assert!(ScanPending::list(&store).is_empty());
    let r = Scan::queue_db(&mut store, ScanKindPending::Full, id, -1);
    assert_eq!(r, Err(DbError::Conflict));
    let r = Scan::queue_db(&mut store, ScanKindPending::Manual(ScanRange::new(3, 3)), id, 100);
    assert_eq!(r, Ok(()));
}

#[test]
fn last_intent_wins() {
    let mut store = new();
    let a = add_camera(&mut store, "10.0.0.1", 1);
    let b = add_camera(&mut store, "10.0.0.2", 1);
    Scan::queue_db(&mut store, ScanKindPending::Full, a, 100).unwrap();
    Scan::queue_db(&mut store, ScanKindPending::Cursor, b, 101).unwrap();
    Scan::queue_db(&mut store, ScanKindPending::Manual(ScanRange::new(5, 50)), a, 102).unwrap();
    assert_eq!(
        ScanPending::list(&store),
        vec![
            ScanPending { camera_id: b, kind: ScanKind::Cursor, range_start: 101, range_end: 101 },
            ScanPending { camera_id: a, kind: ScanKind::Manual, range_start: 5, range_end: 50 },
        ]
    );
}

#[test]
fn queue_all_replaces_the_queue_with_one_request_per_camera() {
    let mut store = new();
    let a = add_camera(&mut store, "10.0.0.1", 1);
    let b = add_camera(&mut store, "10.0.0.2", 1);
    Scan::queue_db(&mut store, ScanKindPending::Manual(ScanRange::new(5, 50)), b, 100).unwrap();
    Scan::queue_all_db(&mut store, ScanKindPending::Full, 200).unwrap();
    assert_eq!(
        ScanPending::list(&store),
        vec![
            ScanPending { camera_id: a, kind: ScanKind::Full, range_start: 0, range_end: 200 },
            ScanPending { camera_id: b, kind: ScanKind::Full, range_start: 0, range_end: 200 },
        ]
    );
}

#[test]
fn queue_all_with_inverted_range_is_a_conflict_only_with_cameras() {
    let mut store = new();
    let inverted = ScanKindPending::Manual(ScanRange::new(9, 3));
    assert_eq!(Scan::queue_all_db(&mut store, inverted, 200), Ok(()));
    add_camera(&mut store, "10.0.0.1", 1);
    assert_eq!(Scan::queue_all_db(&mut store, inverted, 200), Err(DbError::Conflict));
    assert!(ScanPending::list(&store).is_empty());
}

#[test]
fn full_scan_goes_from_pending_to_active_to_one_completed_record() {
    let mut store = new();
    let x = add_camera(&mut store, "10.0.0.1", 1);
    Scan::queue_db(&mut store, ScanKindPending::Full, x, 100).unwrap();
    assert_eq!(ScanPending::list(&store).len(), 1);
    assert!(ScanActive::list(&store).is_empty());

    let actor = ScanActor::next(&mut store, 200).unwrap();
    assert_eq!(actor.camera_id, x);
    assert_eq!(actor.kind, ScanKind::Full);
    assert_eq!(actor.range, ScanRange { start: 0, end: 200 });
    assert_eq!(actor.started_at, 200);
    assert!(ScanPending::list(&store).is_empty());
    assert_eq!(
        ScanActive::list(&store),
        vec![ScanActive {
            camera_id: x,
            kind: ScanKind::Full,
            range_start: 0,
            range_end: 200,
            started_at: 200,
            range_cursor: 200,
            percent: 0,
            upserted: 0,
            deleted: 0,
        }]
    );
    assert!(ScanActor::next(&mut store, 201).is_none());

    actor.update_status(&mut store, 0, 100, 4, 1);
    assert_eq!(actor.end(&mut store, 260), Ok(()));
    assert!(ScanActive::list(&store).is_empty());
    let page = ScanCompleted::list(&store, Page::new(1, 10));
    assert_eq!(page.total_items, 1);
    assert_eq!(page.items.len(), 1);
    let done = &page.items[0];
    assert_eq!(done.id, 1);
    assert_eq!(done.camera_id, x);
    assert_eq!(done.kind, ScanKind::Full);
    assert_eq!((done.range_start, done.range_end), (0, 200));
    assert_eq!(done.started_at, 200);
    assert_eq!(done.range_cursor, 0);
    assert_eq!(done.percent, 100);
    assert_eq!((done.upserted, done.deleted), (4, 1));
    assert_eq!(done.duration, 60);
    assert!(done.success);
    assert_eq!(done.error, "");
    assert!(!done.can_retry);
    assert!(!done.retry_pending);
    assert!(ScanActor::next(&mut store, 300).is_none());
}

#[test]
fn at_most_one_active_scan_per_camera() {
    let mut store = new();
    let a = add_camera(&mut store, "10.0.0.1", 1);
    let b = add_camera(&mut store, "10.0.0.2", 1);
    Scan::queue_db(&mut store, ScanKindPending::Full, a, 100).unwrap();
    let first = ScanActor::next(&mut store, 110).unwrap();
    Scan::queue_db(&mut store, ScanKindPending::Cursor, a, 120).unwrap();
    Scan::queue_db(&mut store, ScanKindPending::Cursor, b, 121).unwrap();

    let second = ScanActor::next(&mut store, 130).unwrap();
    assert_eq!(second.camera_id, b);
    assert!(ScanActor::next(&mut store, 131).is_none());
    assert_eq!(ScanPending::list(&store).len(), 1);
    assert_eq!(ScanActive::list(&store).len(), 2);

    first.end(&mut store, 140).unwrap();
    let third = ScanActor::next(&mut store, 150).unwrap();
    assert_eq!(third.camera_id, a);
    assert_eq!(third.kind, ScanKind::Cursor);
    assert_eq!(third.range, ScanRange { start: 110, end: 150 });
    let active = ScanActive::list(&store);
    assert_eq!(active.len(), 2);
    assert!(active[0].camera_id != active[1].camera_id);
}

#[test]
fn cursor_scan_starts_at_the_camera_scan_cursor() {
    let mut store = new();
    let a = add_camera(&mut store, "10.0.0.1", 1);
    Scan::queue_db(&mut store, ScanKindPending::Cursor, a, 100).unwrap();
    let actor = ScanActor::next(&mut store, 500).unwrap();
    assert_eq!(actor.range, ScanRange { start: 0, end: 500 });
    actor.end(&mut store, 510).unwrap();
    Scan::queue_db(&mut store, ScanKindPending::Cursor, a, 600).unwrap();
    let actor = ScanActor::next(&mut store, 700).unwrap();
    assert_eq!(actor.range, ScanRange { start: 500, end: 700 });
}

#[test]
fn manual_scan_keeps_its_range_and_leaves_the_scan_cursor() {
    let mut store = new();
    let a = add_camera(&mut store, "10.0.0.1", 1);
    Scan::queue_db(&mut store, ScanKindPending::Manual(ScanRange::new(5, 50)), a, 100).unwrap();
    let actor = ScanActor::next(&mut store, 500).unwrap();
    assert_eq!(actor.kind, ScanKind::Manual);
    assert_eq!(actor.range, ScanRange { start: 5, end: 50 });
    assert_eq!(actor.should_update_scan_cursor(), None);
    actor.end(&mut store, 510).unwrap();
    Scan::queue_db(&mut store, ScanKindPending::Cursor, a, 600).unwrap();
    let actor = ScanActor::next(&mut store, 700).unwrap();
    assert_eq!(actor.range, ScanRange { start: 0, end: 700 });
}

#[test]
fn scan_cursor_never_moves_back() {
    let mut store = new();
    let a = add_camera(&mut store, "10.0.0.1", 1);
    Scan::queue_db(&mut store, ScanKindPending::Full, a, 100).unwrap();
    let actor = ScanActor::next(&mut store, 900).unwrap();
    actor.end(&mut store, 910).unwrap();

    // an older full scan that ends later leaves the cursor where it is
    let stale = ScanActor::full(a, 400);
    assert_eq!(stale.should_update_scan_cursor(), Some(400));
    stale.end(&mut store, 920).unwrap();
    Scan::queue_db(&mut store, ScanKindPending::Cursor, a, 1000).unwrap();
    let actor = ScanActor::next(&mut store, 1100).unwrap();
    assert_eq!(actor.range.start, 900);

    // a failed scan leaves it too
    let mut runner = actor.runner();
    runner.step(
        &mut store,
        camera_scan::runner::ScanEvent::Failed("connection refused".to_string()),
    );
    runner.into_actor().end(&mut store, 1200).unwrap();
    Scan::queue_db(&mut store, ScanKindPending::Cursor, a, 1300).unwrap();
    let actor = ScanActor::next(&mut store, 1400).unwrap();
    assert_eq!(actor.range.start, 900);
}

#[test]
fn quiet_cursor_scan_is_not_kept() {
    let mut store = new();
    let a = add_camera(&mut store, "10.0.0.1", 1);
    Scan::queue_db(&mut store, ScanKindPending::Cursor, a, 100).unwrap();
    let actor = ScanActor::next(&mut store, 200).unwrap();
    assert!(!actor.should_save());
    actor.end(&mut store, 210).unwrap();
    assert_eq!(ScanCompleted::list(&store, Page::new(1, 10)).total_items, 0);
    assert!(ScanActive::list(&store).is_empty());

    Scan::queue_db(&mut store, ScanKindPending::Cursor, a, 300).unwrap();
    let mut actor = ScanActor::next(&mut store, 400).unwrap();
    actor.upserted = 1;
    assert!(actor.should_save());
    actor.end(&mut store, 410).unwrap();
    assert_eq!(ScanCompleted::list(&store, Page::new(1, 10)).total_items, 1);
}

#[test]
fn actor_outcome_follows_its_error() {
    let mut actor = ScanActor::cursor(ScanCamera { id: 3, scan_cursor: 40 }, 90);
    assert_eq!(actor.range, ScanRange { start: 40, end: 90 });
    assert!(actor.success());
    assert!(!actor.can_retry());
    assert!(!actor.should_save());
    assert_eq!(actor.should_update_scan_cursor(), Some(90));
    assert_eq!(actor.duration(100), 10);
    assert_eq!(actor.duration(80), -10);
    actor.error = "timeout".to_string();
    assert!(!actor.success());
    assert!(actor.can_retry());
    assert!(actor.should_save());
    assert_eq!(actor.should_update_scan_cursor(), None);
}

#[test]
fn duration_is_held_within_bounds() {
    let early = ScanActor::manual(1, ScanRange::new(0, 1), i64::MIN);
    assert_eq!(early.duration(i64::MAX), i64::MAX);
    let late = ScanActor::manual(1, ScanRange::new(0, 1), i64::MAX);
    assert_eq!(late.duration(i64::MIN), i64::MIN);
}

fn fail_scan(store: &mut Store, camera_id: i64, now: i64) -> i64 {
    Scan::queue_db(store, ScanKindPending::Manual(ScanRange::new(10, 20)), camera_id, now).unwrap();
    let mut actor = ScanActor::next(store, now).unwrap();
    assert_eq!(actor.camera_id, camera_id);
    actor.error = "device unreachable".to_string();
    actor.end(store, now + 1).unwrap();
    let page = ScanCompleted::list(store, Page::new(1, 100));
    page.items.iter().map(|c| c.id).max().unwrap()
}

#[test]
fn failed_scan_is_kept_and_can_be_retried() {
    let mut store = new();
    let a = add_camera(&mut store, "10.0.0.1", 1);
    let id = fail_scan(&mut store, a, 100);
    let done = ScanCompleted::find(&store, id).unwrap();
    assert!(!done.success);
    assert_eq!(done.error, "device unreachable");
    assert!(done.can_retry);
    assert!(!done.retry_pending);
    assert!(ScanActor::next(&mut store, 150).is_none());

    assert_eq!(ScanCompleted::retry_db(&mut store, id), Ok(()));
    assert!(ScanCompleted::find(&store, id).unwrap().retry_pending);
    let actor = ScanActor::next(&mut store, 200).unwrap();
    assert_eq!(actor.camera_id, a);
    assert_eq!(actor.kind, ScanKind::Manual);
    assert_eq!(actor.range, ScanRange { start: 10, end: 20 });
    assert_eq!(actor.started_at, 200);
    assert!(actor.success());
    let done = ScanCompleted::find(&store, id).unwrap();
    assert!(!done.retry_pending);
    assert!(!done.can_retry);
    assert_eq!(ScanCompleted::retry_db(&mut store, id), Err(DbError::NotFound));
    assert_eq!(ScanActive::list(&store).len(), 1);
}

#[test]
fn retry_of_unknown_or_successful_scan_is_not_found() {
    let mut store = new();
    let a = add_camera(&mut store, "10.0.0.1", 1);
    assert_eq!(ScanCompleted::retry_db(&mut store, 1), Err(DbError::NotFound));
    assert_eq!(ScanCompleted::find(&store, 1).unwrap_err(), DbError::NotFound);
    Scan::queue_db(&mut store, ScanKindPending::Full, a, 100).unwrap();
    ScanActor::next(&mut store, 200).unwrap().end(&mut store, 210).unwrap();
    assert!(ScanCompleted::find(&store, 1).unwrap().success);
    assert_eq!(ScanCompleted::retry_db(&mut store, 1), Err(DbError::NotFound));
}

#[test]
fn retry_and_unrelated_pending_are_both_picked_up() {
    let mut store = new();
    let a = add_camera(&mut store, "10.0.0.1", 1);
    let b = add_camera(&mut store, "10.0.0.2", 1);
    let id = fail_scan(&mut store, b, 100);
    ScanCompleted::retry_db(&mut store, id).unwrap();
    Scan::queue_db(&mut store, ScanKindPending::Full, a, 300).unwrap();

    let first = ScanActor::next(&mut store, 400).unwrap();
    let second = ScanActor::next(&mut store, 401).unwrap();
    assert!(ScanActor::next(&mut store, 402).is_none());
    assert_eq!(first.camera_id, a);
    assert_eq!(second.camera_id, b);
    assert_eq!(second.range, ScanRange { start: 10, end: 20 });
    assert_eq!(ScanActive::list(&store).len(), 2);
}

#[test]
fn retry_waits_while_its_camera_is_scanned() {
    let mut store = new();
    let b = add_camera(&mut store, "10.0.0.2", 1);
    let id = fail_scan(&mut store, b, 100);
    Scan::queue_db(&mut store, ScanKindPending::Full, b, 300).unwrap();
    let running = ScanActor::next(&mut store, 310).unwrap();
    ScanCompleted::retry_db(&mut store, id).unwrap();
    assert!(ScanActor::next(&mut store, 320).is_none());
    running.end(&mut store, 330).unwrap();
    let again = ScanActor::next(&mut store, 340).unwrap();
    assert_eq!(again.range, ScanRange { start: 10, end: 20 });
}

#[test]
fn clear_removes_active_scans_and_does_not_queue_them_again() {
    let mut store = new();
    let y = add_camera(&mut store, "10.0.0.1", 1);
    Scan::queue_db(&mut store, ScanKindPending::Full, y, 100).unwrap();
    let lost = ScanActor::next(&mut store, 200).unwrap();
    assert_eq!(ScanActive::list(&store).len(), 1);

    ScanActive::clear(&mut store);
    assert!(ScanActive::list(&store).is_empty());
    assert!(ScanPending::list(&store).is_empty());
    assert!(ScanActor::next(&mut store, 300).is_none());

    // the run that was lost ends without a trace
    lost.update_status(&mut store, 0, 100, 3, 0);
    assert!(ScanActive::list(&store).is_empty());
    lost.end(&mut store, 310).unwrap();
    assert_eq!(ScanCompleted::list(&store, Page::new(1, 10)).total_items, 0);

    assert_eq!(Scan::queue_db(&mut store, ScanKindPending::Full, y, 400), Ok(()));
    let actor = ScanActor::next(&mut store, 500).unwrap();
    assert_eq!(actor.camera_id, y);
}

#[test]
fn update_status_changes_only_the_row_of_its_camera() {
    let mut store = new();
    let a = add_camera(&mut store, "10.0.0.1", 1);
    let b = add_camera(&mut store, "10.0.0.2", 1);
    Scan::queue_all_db(&mut store, ScanKindPending::Full, 100).unwrap();
    let first = ScanActor::next(&mut store, 200).unwrap();
    let second = ScanActor::next(&mut store, 200).unwrap();
    assert_eq!((first.camera_id, second.camera_id), (a, b));
    second.update_status(&mut store, 77, 61, 9, 2);
    let active = ScanActive::list(&store);
    assert_eq!(active[0].range_cursor, 200);
    assert_eq!(active[0].percent, 0);
    assert_eq!(active[1].camera_id, b);
    assert_eq!(active[1].range_cursor, 77);
    assert_eq!(active[1].percent, 61);
    assert_eq!((active[1].upserted, active[1].deleted), (9, 2));
}

#[test]
fn completed_list_is_newest_first_and_paged() {
    let mut store = new();
    let a = add_camera(&mut store, "10.0.0.1", 1);
    for (start, end) in [(300, 310), (100, 110), (200, 210), (200, 220)] {
        Scan::queue_db(&mut store, ScanKindPending::Full, a, start).unwrap();
        ScanActor::next(&mut store, start).unwrap().end(&mut store, end).unwrap();
    }
    let page = ScanCompleted::list(&store, Page::new(1, 3));
    assert_eq!((page.page, page.per_page), (1, 3));
    assert_eq!(page.total_items, 4);
    assert_eq!(page.total_pages, 2);
    let ids: Vec<i64> = page.items.iter().map(|c| c.id).collect();
    assert_eq!(ids, vec![1, 4, 3]);
    let page = ScanCompleted::list(&store, Page::new(2, 3));
    let ids: Vec<i64> = page.items.iter().map(|c| c.id).collect();
    assert_eq!(ids, vec![2]);
    let page = ScanCompleted::list(&store, Page::new(3, 3));
    assert!(page.items.is_empty());
    let page = ScanCompleted::list(&store, Page::new(0, 10));
    assert_eq!(page.items.len(), 4);
    let page = ScanCompleted::list(&store, Page::new(1, 0));
    assert!(page.items.is_empty());
    assert_eq!(page.total_pages, 0);
}

#[test]
fn run_pending_starts_everything_that_can_start() {
    let mut store = new();
    let a = add_camera(&mut store, "10.0.0.1", 1);
    let b = add_camera(&mut store, "10.0.0.2", 1);
    let c = add_camera(&mut store, "10.0.0.3", 1);
    let id = fail_scan(&mut store, c, 50);
    ScanCompleted::retry_db(&mut store, id).unwrap();
    Scan::queue_db(&mut store, ScanKindPending::Full, b, 100).unwrap();
    Scan::queue_db(&mut store, ScanKindPending::Cursor, a, 101).unwrap();
    let actors = Scan::run_pending_at(&mut store, 200);
    let cameras: Vec<i64> = actors.iter().map(|x| x.camera_id).collect();
    assert_eq!(cameras, vec![b, a, c]);
    assert!(ScanPending::list(&store).is_empty());
    assert_eq!(ScanActive::list(&store).len(), 3);
    assert!(Scan::run_pending_at(&mut store, 201).is_empty());
}

#[test]
fn queue_at_starts_the_scan_unless_the_camera_is_busy() {
    let mut store = new();
    let a = add_camera(&mut store, "10.0.0.1", 1);
    let started = Scan::queue_at(&mut store, a, ScanKindPending::Full, 100).unwrap();
    assert_eq!(started.len(), 1);
    assert_eq!(started[0].range, ScanRange { start: 0, end: 100 });
    let started = Scan::queue_at(&mut store, a, ScanKindPending::Cursor, 110).unwrap();
    assert!(started.is_empty());
    assert_eq!(ScanPending::list(&store).len(), 1);
    assert_eq!(
        Scan::queue_at(&mut store, 99, ScanKindPending::Cursor, 110).unwrap_err(),
        DbError::NotFound
    );
    assert_eq!(
        Scan::queue_at(&mut store, a, ScanKindPending::Manual(ScanRange::new(2, 1)), 110)
            .unwrap_err(),
        DbError::Conflict
    );
}

#[test]
fn queue_all_at_starts_one_scan_per_camera() {
    let mut store = new();
    let a = add_camera(&mut store, "10.0.0.1", 1);
    let b = add_camera(&mut store, "10.0.0.2", 1);
    let started = Scan::queue_all_at(&mut store, ScanKindPending::Full, 100).unwrap();
    let cameras: Vec<i64> = started.iter().map(|x| x.camera_id).collect();
    assert_eq!(cameras, vec![a, b]);
    assert_eq!(
        Scan::queue_all_at(&mut store, ScanKindPending::Manual(ScanRange::new(2, 1)), 100)
            .unwrap_err(),
        DbError::Conflict
    );
}

#[test]
fn retry_at_starts_the_retry() {
    let mut store = new();
    let a = add_camera(&mut store, "10.0.0.1", 1);
    let id = fail_scan(&mut store, a, 100);
    let started = ScanCompleted::retry_at(&mut store, id, 200).unwrap();
    assert_eq!(started.len(), 1);
    assert_eq!(started[0].started_at, 200);
    assert_eq!(ScanCompleted::retry_at(&mut store, id, 201).unwrap_err(), DbError::NotFound);
}

#[test]
fn requests_by_the_clock_use_unix_milliseconds() {
    let mut store = new();
    let a = add_camera(&mut store, "10.0.0.1", 1);
    let started = Scan::queue(&mut store, a, ScanKindPending::Full).unwrap();
    assert_eq!(started.len(), 1);
    // later than the year 2020 and earlier than the year 2200, in milliseconds
    assert!(started[0].started_at > 1_577_836_800_000);
    assert!(started[0].started_at < 7_258_118_400_000);
    assert_eq!(started[0].range.start, 0);
    let b = add_camera(&mut store, "10.0.0.2", 1);
    let started = Scan::queue_all(&mut store, ScanKindPending::Cursor).unwrap();
    assert_eq!(started.len(), 1);
    assert_eq!(started[0].camera_id, b);
    assert!(Scan::run_pending(&mut store).is_empty());
    assert_eq!(ScanCompleted::retry(&mut store, 1).unwrap_err(), DbError::NotFound);
    assert_eq!(Scan::queue(&mut store, 99, ScanKindPending::Full).unwrap_err(), DbError::NotFound);
    assert_eq!(
        Scan::queue(&mut store, a, ScanKindPending::Manual(ScanRange::new(2, 1))).unwrap_err(),
        DbError::Conflict
    );
}
