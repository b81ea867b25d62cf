use camera_scan::cursor::CameraFileQueryCursor;
use camera_scan::db::{new, Store};
use camera_scan::error::DbError;
use camera_scan::filter::CameraFileQueryFilter;
use camera_scan::models::{CameraFile, CreateCameraRequest, ScanActive, ScanKind, ScanPending};
use camera_scan::query::{CameraFileQuery, CameraFileQueryResult};

fn add_cameras(store: &mut Store, n: usize) {
    for k in 0..n {
        let req = CreateCameraRequest {
            ip: format!("10.0.0.{}", k + 1),
            username: "admin".to_string(),
            password: "secret".to_string(),
        };
        assert_eq!(req.create_db(store, 1), Ok(k as i64 + 1));
    }
}

fn file(camera_id: i64, start_time: i64, kind: &str, events: &str) -> CameraFile {
    CameraFile {
        camera_id,
        file_path: format!("/mnt/sd/{}/{}.{}", camera_id, start_time, kind),
        kind: kind.to_string(),
        size: 1024,
        start_time,
        end_time: start_time + 1,
        events: events.to_string(),
    }
}

fn five_files() -> Store {
    let mut store = new();
    add_cameras(&mut store, 5);
    for (camera_id, start_time) in [(3, 8), (1, 10), (5, 4), (2, 10), (4, 6)] {
        file(camera_id, start_time, "dav", "[\"VideoMotion\"]").upsert(&mut store).unwrap();
    }
    store
}

fn keys(r: &CameraFileQueryResult) -> Vec<(i64, i64)> {
    r.files.iter().map(|f| (f.camera_id, f.start_time)).collect()
}

fn ask(
    store: &Store,
    filter: &CameraFileQueryFilter,
    limit: u32,
    cursor: CameraFileQueryCursor,
) -> CameraFileQueryResult {
    CameraFile::query_db(store, CameraFileQuery { filter, limit, cursor })
}

#[test]
fn first_page_of_five_files() {
    let store = five_files();
    let filter = CameraFileQueryFilter::new();
    let r = ask(&store, &filter, 2, CameraFileQueryCursor::Start);
    assert_eq!(keys(&r), vec![(2, 10), (1, 10)]);
    assert!(r.has_after);
    assert!(!r.has_before);
    assert_eq!(r.count, 2);
    assert_eq!(CameraFileQueryCursor::parse(&r.after), Some((1, 10)));
    assert_eq!(CameraFileQueryCursor::parse(&r.before), Some((2, 10)));
    assert_eq!(r.after, CameraFileQueryCursor::to(1, 10));
}

#[test]
fn second_page_of_five_files() {
    let store = five_files();
    let filter = CameraFileQueryFilter::new();
    let r = ask(&store, &filter, 2, CameraFileQueryCursor::After((1, 10)));
    assert_eq!(keys(&r), vec![(3, 8), (4, 6)]);
    assert!(r.has_before);
    assert!(r.has_after);
    assert_eq!(CameraFileQueryCursor::parse(&r.before), Some((3, 8)));
    assert_eq!(CameraFileQueryCursor::parse(&r.after), Some((4, 6)));
}

#[test]
fn walking_forward_then_backward_finds_every_file_once() {
    let store = five_files();
    let filter = CameraFileQueryFilter::new();
    for limit in 1..7u32 {
        let mut forward: Vec<(i64, i64)> = Vec::new();
        let mut r = ask(&store, &filter, limit, CameraFileQueryCursor::Start);
        forward.extend(keys(&r));
        while r.has_after {
            let cursor = CameraFileQueryCursor::after(&r.after).unwrap();
            r = ask(&store, &filter, limit, cursor);
            forward.extend(keys(&r));
        }
        assert_eq!(forward, vec![(2, 10), (1, 10), (3, 8), (4, 6), (5, 4)]);

        let mut backward: Vec<(i64, i64)> = keys(&r);
        while r.has_before {
            let cursor = CameraFileQueryCursor::before(&r.before).unwrap();
            r = ask(&store, &filter, limit, cursor);
            let mut page = keys(&r);
            page.extend(backward);
            backward = page;
        }
        assert_eq!(backward, forward);
    }
}

#[test]
fn second_of_two_pages_of_one_file_reports_the_first() {
    let mut store = new();
    add_cameras(&mut store, 2);
    file(2, 10, "dav", "[]").upsert(&mut store).unwrap();
    file(1, 10, "dav", "[]").upsert(&mut store).unwrap();
    let filter = CameraFileQueryFilter::new();

    let first = ask(&store, &filter, 1, CameraFileQueryCursor::Start);
    assert_eq!(keys(&first), vec![(2, 10)]);
    assert!(first.has_after);
    assert!(!first.has_before);

    let second = ask(&store, &filter, 1, CameraFileQueryCursor::After((2, 10)));
    assert_eq!(keys(&second), vec![(1, 10)]);
    assert!(!second.has_after);
    assert!(second.has_before);

    let back = ask(&store, &filter, 1, CameraFileQueryCursor::Before((1, 10)));
    assert_eq!(keys(&back), vec![(2, 10)]);
    assert!(back.has_after);
    assert!(!back.has_before);
}

#[test]
fn flags_tell_of_files_beyond_the_page_not_beyond_the_position() {
    let store = five_files();
    let filter = CameraFileQueryFilter::new();
    // no file has the key of the position: nothing is at it, one file is before it
    let r = ask(&store, &filter, 2, CameraFileQueryCursor::After((9, 9)));
    assert_eq!(keys(&r), vec![(3, 8), (4, 6)]);
    assert!(r.has_before);
    assert!(r.has_after);
    // the position lies before every file: nothing comes before the page
    let r = ask(&store, &filter, 2, CameraFileQueryCursor::After((9, 11)));
    assert_eq!(keys(&r), vec![(2, 10), (1, 10)]);
    assert!(!r.has_before);
    // the position lies after every file: nothing comes after the page
    let r = ask(&store, &filter, 2, CameraFileQueryCursor::Before((0, 3)));
    assert_eq!(keys(&r), vec![(4, 6), (5, 4)]);
    assert!(!r.has_after);
    assert!(r.has_before);
    // an empty page after the last file: every file comes before it
    let r = ask(&store, &filter, 2, CameraFileQueryCursor::After((5, 4)));
    assert!(r.files.is_empty());
    assert!(r.has_before);
    assert!(!r.has_after);
    // an empty page before the first file: every file comes after it
    let r = ask(&store, &filter, 2, CameraFileQueryCursor::Before((2, 10)));
    assert!(r.files.is_empty());
    assert!(r.has_after);
    assert!(!r.has_before);
}

#[test]
fn page_before_a_file_holds_the_nearest_newer_files() {
    let store = five_files();
    let filter = CameraFileQueryFilter::new();
    let r = ask(&store, &filter, 2, CameraFileQueryCursor::Before((5, 4)));
    assert_eq!(keys(&r), vec![(3, 8), (4, 6)]);
    assert!(r.has_before);
    assert!(r.has_after);
    let r = ask(&store, &filter, 2, CameraFileQueryCursor::Before((4, 6)));
    assert_eq!(keys(&r), vec![(1, 10), (3, 8)]);
    assert!(r.has_before);
    assert!(r.has_after);
    let r = ask(&store, &filter, 2, CameraFileQueryCursor::Before((1, 10)));
    assert_eq!(keys(&r), vec![(2, 10)]);
    assert!(!r.has_before);
    assert!(r.has_after);
}

#[test]
fn page_after_the_first_file_reports_the_first_file_before_it() {
    let store = five_files();
    let filter = CameraFileQueryFilter::new();
    let r = ask(&store, &filter, 10, CameraFileQueryCursor::After((2, 10)));
    assert_eq!(keys(&r), vec![(1, 10), (3, 8), (4, 6), (5, 4)]);
    assert!(r.has_before);
    assert!(!r.has_after);
}

#[test]
fn files_with_one_start_time_come_by_descending_camera_id() {
    let mut store = new();
    add_cameras(&mut store, 4);
    for camera_id in [2, 4, 1, 3] {
        file(camera_id, 50, "jpg", "").upsert(&mut store).unwrap();
    }
    let filter = CameraFileQueryFilter::new();
    for _ in 0..3 {
        let r = ask(&store, &filter, 10, CameraFileQueryCursor::Start);
        assert_eq!(keys(&r), vec![(4, 50), (3, 50), (2, 50), (1, 50)]);
    }
    let r = ask(&store, &filter, 1, CameraFileQueryCursor::After((3, 50)));
    assert_eq!(keys(&r), vec![(2, 50)]);
}

#[test]
fn empty_page_has_empty_tokens() {
    let store = five_files();
    let filter = CameraFileQueryFilter::new().camera_ids(vec![42]);
    let r = ask(&store, &filter, 2, CameraFileQueryCursor::Start);
    assert!(r.files.is_empty());
    assert_eq!(r.before, "");
    assert_eq!(r.after, "");
    assert!(!r.has_after);
    assert!(!r.has_before);
    assert_eq!(r.count, 0);
    let all = CameraFileQueryFilter::new();
    let r = ask(&store, &all, 0, CameraFileQueryCursor::Start);
    assert!(r.files.is_empty());
    assert!(r.has_after);
    assert_eq!(r.after, "");
}

#[test]
fn upsert_replaces_the_file_with_the_same_key() {
    let mut store = five_files();
    let mut changed = file(3, 8, "jpg", "[]");
    changed.size = 7;
    changed.upsert(&mut store).unwrap();
    let filter = CameraFileQueryFilter::new();
    assert_eq!(CameraFile::total(&store, &filter), 5);
    let r = ask(&store, &filter, 10, CameraFileQueryCursor::Start);
    assert_eq!(keys(&r), vec![(2, 10), (1, 10), (3, 8), (4, 6), (5, 4)]);
    assert_eq!(r.files[2].kind, "jpg");
    assert_eq!(r.files[2].size, 7);
}

#[test]
fn upsert_for_unknown_camera_is_not_found() {
    let mut store = new();
    assert_eq!(file(1, 8, "jpg", "").upsert(&mut store), Err(DbError::NotFound));
    assert_eq!(CameraFile::total(&store, &CameraFileQueryFilter::new()), 0);
}

#[test]
fn filter_by_time_is_strict_on_both_sides() {
    let store = five_files();
    let filter = CameraFileQueryFilter::new().start(4).end(10);
    let r = ask(&store, &filter, 10, CameraFileQueryCursor::Start);
    assert_eq!(keys(&r), vec![(3, 8), (4, 6)]);
    assert_eq!(CameraFile::total(&store, &filter), 2);
    let filter = CameraFileQueryFilter::new().start(3);
    assert_eq!(CameraFile::total(&store, &filter), 5);
    let filter = CameraFileQueryFilter::new().end(11);
    assert_eq!(CameraFile::total(&store, &filter), 5);
}

#[test]
fn filter_by_camera_and_kind() {
    let mut store = five_files();
    file(1, 20, "jpg", "").upsert(&mut store).unwrap();
    let filter = CameraFileQueryFilter::new().camera_ids(vec![1, 5]);
    let r = ask(&store, &filter, 10, CameraFileQueryCursor::Start);
    assert_eq!(keys(&r), vec![(1, 20), (1, 10), (5, 4)]);
    let filter = CameraFileQueryFilter::new().kinds(vec!["jpg".to_string()]);
    let r = ask(&store, &filter, 10, CameraFileQueryCursor::Start);
    assert_eq!(keys(&r), vec![(1, 20)]);
    let filter = CameraFileQueryFilter::new()
        .camera_ids(vec![1, 5])
        .kinds(vec!["mp4".to_string(), "dav".to_string()]);
    assert_eq!(CameraFile::total(&store, &filter), 2);
    let filter = CameraFileQueryFilter::new().kinds(vec!["da".to_string()]);
    assert_eq!(CameraFile::total(&store, &filter), 0);
}

#[test]
fn filter_by_event_looks_for_the_quoted_tag() {
    let mut store = new();
    add_cameras(&mut store, 1);
    file(1, 1, "dav", "[\"VideoMotion\",\"Tripwire\"]").upsert(&mut store).unwrap();
    file(1, 2, "dav", "[\"CrossLineDetection\"]").upsert(&mut store).unwrap();
    file(1, 3, "dav", "[]").upsert(&mut store).unwrap();
    file(1, 4, "dav", "[\"Tripwire\"]").upsert(&mut store).unwrap();
    file(1, 5, "dav", "\"").upsert(&mut store).unwrap();
    let total = |events: &[&str]| {
        let filter =
            CameraFileQueryFilter::new().events(events.iter().map(|e| e.to_string()).collect());
        let r = ask(&store, &filter, 10, CameraFileQueryCursor::Start);
        keys(&r).iter().map(|k| k.1).collect::<Vec<i64>>()
    };
    assert_eq!(total(&["Tripwire"]), vec![4, 1]);
    assert_eq!(total(&["VideoMotion", "CrossLineDetection"]), vec![2, 1]);
    assert_eq!(total(&["Trip"]), Vec::<i64>::new());
    assert_eq!(total(&["tripwire"]), Vec::<i64>::new());
    assert_eq!(total(&["Line"]), Vec::<i64>::new());
    assert_eq!(total(&[","]), vec![1]);
    assert_eq!(total(&[""]), Vec::<i64>::new());
    assert_eq!(total(&[]), vec![5, 4, 3, 2, 1]);
}

#[test]
fn cursor_and_filter_combine() {
    let store = five_files();
    let filter = CameraFileQueryFilter::new().camera_ids(vec![1, 3, 5]);
    let r = ask(&store, &filter, 1, CameraFileQueryCursor::After((1, 10)));
    assert_eq!(keys(&r), vec![(3, 8)]);
    assert!(r.has_after);
    assert!(r.has_before);
    // the file at the position does not match the filter: it does not count
    let r = ask(&store, &filter, 1, CameraFileQueryCursor::After((2, 10)));
    assert_eq!(keys(&r), vec![(1, 10)]);
    assert!(!r.has_before);
    assert!(r.has_after);
    let r = ask(&store, &filter, 5, CameraFileQueryCursor::Before((3, 8)));
    assert_eq!(keys(&r), vec![(1, 10)]);
    assert!(r.has_after);
    assert!(!r.has_before);
    let r = ask(&store, &filter, 5, CameraFileQueryCursor::Before((4, 6)));
    assert_eq!(keys(&r), vec![(1, 10), (3, 8)]);
    assert!(r.has_after);
}

#[test]
fn token_is_thirty_two_hex_digits() {
    assert_eq!(CameraFileQueryCursor::to(0, 0), "80000000000000008000000000000000");
    assert_eq!(CameraFileQueryCursor::to(1, 10), "8000000000000001800000000000000a");
    assert_eq!(CameraFileQueryCursor::to(-1, 255), "7fffffffffffffff80000000000000ff");
    assert_eq!(
        CameraFileQueryCursor::to(i64::MIN, i64::MAX),
        "0000000000000000ffffffffffffffff"
    );
}

#[test]
fn token_round_trips() {
    for key in [(0, 0), (1, 10), (-1, -1), (i64::MIN, i64::MAX), (i64::MAX, i64::MIN), (77, 1_700_000_000_123)] {
        let token = CameraFileQueryCursor::to(key.0, key.1);
        assert_eq!(CameraFileQueryCursor::parse(&token), Some(key));
        assert_eq!(CameraFileQueryCursor::after(&token), Some(CameraFileQueryCursor::After(key)));
        assert_eq!(CameraFileQueryCursor::before(&token), Some(CameraFileQueryCursor::Before(key)));
    }
}

#[test]
fn text_that_is_no_token_is_refused() {
    assert_eq!(CameraFileQueryCursor::parse(""), None);
    assert_eq!(CameraFileQueryCursor::parse("8000000000000001800000000000000"), None);
    assert_eq!(CameraFileQueryCursor::parse("8000000000000001800000000000000a0"), None);
    assert_eq!(CameraFileQueryCursor::parse("8000000000000001800000000000000A"), None);
    assert_eq!(CameraFileQueryCursor::parse("800000000000000g800000000000000a"), None);
    assert_eq!(CameraFileQueryCursor::parse("8000000000000001 00000000000000a"), None);
    assert_eq!(CameraFileQueryCursor::parse("é000000000000001800000000000000"), None);
    assert_eq!(CameraFileQueryCursor::after("1_10"), None);
    assert_eq!(CameraFileQueryCursor::before("1_10"), None);
}

#[test]
fn query_for_first_page_asks_for_a_cursor_scan_of_every_camera() {
    let mut store = five_files();
    let filter = CameraFileQueryFilter::new();
    let (page, actors) = CameraFile::query_at(
        &mut store,
        CameraFileQuery { filter: &filter, limit: 2, cursor: CameraFileQueryCursor::Start },
        900,
    );
    assert_eq!(keys(&page), vec![(2, 10), (1, 10)]);
    assert_eq!(actors.len(), 5);
    for (k, actor) in actors.iter().enumerate() {
        assert_eq!(actor.camera_id, k as i64 + 1);
        assert_eq!(actor.kind, ScanKind::Cursor);
        assert_eq!((actor.range.start, actor.range.end), (0, 900));
    }
    assert_eq!(ScanActive::list(&store).len(), 5);

    // a second first page queues again, and nothing can start
    let (_, actors) = CameraFile::query_at(
        &mut store,
        CameraFileQuery { filter: &filter, limit: 2, cursor: CameraFileQueryCursor::Start },
        901,
    );
    assert!(actors.is_empty());
    assert_eq!(ScanPending::list(&store).len(), 5);
}

#[test]
fn query_for_another_page_starts_no_scan() {
    let mut store = five_files();
    let filter = CameraFileQueryFilter::new();
    let (page, actors) = CameraFile::query_at(
        &mut store,
        CameraFileQuery { filter: &filter, limit: 2, cursor: CameraFileQueryCursor::After((1, 10)) },
        900,
    );
    assert_eq!(keys(&page), vec![(3, 8), (4, 6)]);
    assert!(actors.is_empty());
    assert!(ScanPending::list(&store).is_empty());
    assert!(ScanActive::list(&store).is_empty());
    let (page, actors) = CameraFile::query(
        &mut store,
        CameraFileQuery { filter: &filter, limit: 1, cursor: CameraFileQueryCursor::Before((1, 10)) },
    );
    assert_eq!(keys(&page), vec![(2, 10)]);
    assert!(actors.is_empty());
}

#[test]
fn delete_takes_one_file_out_of_the_index() {
    let mut store = five_files();
    assert_eq!(CameraFile::delete(&mut store, 3, 8), Ok(()));
    assert_eq!(CameraFile::delete(&mut store, 3, 8), Err(DbError::NotFound));
    assert_eq!(CameraFile::delete(&mut store, 1, 8), Err(DbError::NotFound));
    let filter = CameraFileQueryFilter::new();
    let r = ask(&store, &filter, 10, CameraFileQueryCursor::Start);
    assert_eq!(keys(&r), vec![(2, 10), (1, 10), (4, 6), (5, 4)]);
}

#[test]
fn sync_writes_what_a_scan_found() {
    let mut store = five_files();
    let found = vec![file(9, 8, "jpg", "[]"), file(9, 7, "dav", "[]"), file(9, 7, "mp4", "[]")];
    let gone = vec![99, 7, 7, 8];
    let r = CameraFile::sync(&mut store, 3, &found, &gone).unwrap();
    assert_eq!((r.upserted, r.deleted), (3, 2));
    let filter = CameraFileQueryFilter::new();
    let page = ask(&store, &filter, 10, CameraFileQueryCursor::Start);
    assert_eq!(keys(&page), vec![(2, 10), (1, 10), (4, 6), (5, 4)]);

    let found = vec![file(0, 8, "jpg", "[]"), file(0, 12, "dav", "[]")];
    let r = CameraFile::sync(&mut store, 3, &found, &Vec::new()).unwrap();
    assert_eq!((r.upserted, r.deleted), (2, 0));
    let page = ask(&store, &filter, 10, CameraFileQueryCursor::Start);
    assert_eq!(keys(&page), vec![(3, 12), (2, 10), (1, 10), (3, 8), (4, 6), (5, 4)]);
    assert_eq!(page.files[3].kind, "jpg");

    assert_eq!(
        CameraFile::sync(&mut store, 42, &found, &Vec::new()).unwrap_err(),
        DbError::NotFound
    );
    assert_eq!(CameraFile::total(&store, &filter), 6);
}
