use camera_scan::db::{new, Store};
use camera_scan::error::DbError;
use camera_scan::filter::CameraFileQueryFilter;
use camera_scan::models::{
    Camera, CameraDetail, CameraFile, CameraLicense, CameraShow, CameraSoftware,
    CreateCameraRequest, ICamera, ScanActive, ScanCompleted, ScanKind, ScanPending,
    UpdateCameraRequest,
};
use camera_scan::page::Page;
use camera_scan::range::ScanRange;
use camera_scan::scan::{Scan, ScanActor, ScanKindPending};

fn request(ip: &str) -> CreateCameraRequest {
    CreateCameraRequest {
        ip: ip.to_string(),
        username: "admin".to_string(),
        password: "secret".to_string(),
    }
}

fn two_cameras() -> Store {
    let mut store = new();
    assert_eq!(request("10.0.0.1").create_db(&mut store, 11), Ok(1));
    assert_eq!(request("10.0.0.2").create_db(&mut store, 12), Ok(2));
    store
}

fn file(camera_id: i64, start_time: i64) -> CameraFile {
    CameraFile {
        camera_id,
        file_path: format!("/{}/{}", camera_id, start_time),
        kind: "dav".to_string(),
        size: 1,
        start_time,
        end_time: start_time + 1,
        events: "[]".to_string(),
    }
}

#[test]
fn created_camera_has_its_fields_and_nothing_reported() {
    let store = two_cameras();
    assert_eq!(Camera::total(&store), 2);
    let camera = Camera::find(&store, 2).unwrap();
    assert_eq!(camera.id, 2);
    assert_eq!(camera.ip, "10.0.0.2");
    assert_eq!(camera.username, "admin");
    assert_eq!(camera.created_at, 12);
    assert_eq!(camera.refreshed_at, 0);
    let internal = ICamera::find_optional(&store, 2).unwrap();
    assert_eq!(internal.password, "secret");
    assert_eq!(internal.ip, "10.0.0.2");
    let detail = CameraDetail::find(&store, 2).unwrap();
    assert_eq!(detail.sn, "");
    assert_eq!(detail.vendor, "");
    let software = CameraSoftware::find(&store, 2).unwrap();
    assert_eq!(software.version, "");
    assert!(CameraLicense::list(&store, 2).is_empty());
}

#[test]
fn lists_are_in_order_of_creation() {
    let store = two_cameras();
    let ips: Vec<String> = Camera::list(&store).into_iter().map(|c| c.ip).collect();
    assert_eq!(ips, vec!["10.0.0.1", "10.0.0.2"]);
    let ids: Vec<i64> = ICamera::list(&store).into_iter().map(|c| c.id).collect();
    assert_eq!(ids, vec![1, 2]);
}

#[test]
fn unknown_camera_is_not_found() {
    let mut store = two_cameras();
    assert_eq!(Camera::find(&store, 3).unwrap_err(), DbError::NotFound);
    assert!(ICamera::find_optional(&store, 3).is_none());
    assert_eq!(CameraDetail::find(&store, 3).unwrap_err(), DbError::NotFound);
    assert_eq!(CameraSoftware::find(&store, 3).unwrap_err(), DbError::NotFound);
    assert!(CameraLicense::list(&store, 3).is_empty());
    assert_eq!(CameraShow::find(&store, 3).unwrap_err(), DbError::NotFound);
    assert_eq!(Camera::delete(&mut store, 3), Err(DbError::NotFound));
    assert_eq!(Camera::update_refreshed_at(&mut store, 3, 5), Err(DbError::NotFound));
    let update = UpdateCameraRequest { id: 3, ip: None, username: None, password: None };
    assert_eq!(update.update(&mut store), Err(DbError::NotFound));
    assert_eq!(CameraDetail::blank().save(&mut store, 3), Err(DbError::NotFound));
    assert_eq!(CameraSoftware::blank().save(&mut store, 3), Err(DbError::NotFound));
    assert_eq!(CameraLicense::save(Vec::new(), &mut store, 3), Err(DbError::NotFound));
    assert_eq!(Camera::total(&store), 2);
}

#[test]
fn update_changes_only_the_fields_that_are_given() {
    let mut store = two_cameras();
    let update = UpdateCameraRequest {
        id: 1,
        ip: Some("192.168.1.9".to_string()),
        username: None,
        password: Some("hunter2".to_string()),
    };
    assert_eq!(update.update(&mut store), Ok(()));
    let camera = ICamera::find_optional(&store, 1).unwrap();
    assert_eq!(camera.ip, "192.168.1.9");
    assert_eq!(camera.username, "admin");
    assert_eq!(camera.password, "hunter2");
    let other = ICamera::find_optional(&store, 2).unwrap();
    assert_eq!(other.ip, "10.0.0.2");
    assert_eq!(other.password, "secret");
}

#[test]
fn refresh_time_and_reports_are_saved() {
    let mut store = two_cameras();
    assert_eq!(Camera::update_refreshed_at(&mut store, 2, 777), Ok(()));
    assert_eq!(Camera::find(&store, 2).unwrap().refreshed_at, 777);
    assert_eq!(Camera::find(&store, 1).unwrap().refreshed_at, 0);

    let mut detail = CameraDetail::blank();
    detail.sn = "SN123".to_string();
    detail.vendor = "Acme".to_string();
    assert_eq!(detail.save(&mut store, 2), Ok(()));
    let mut software = CameraSoftware::blank();
    software.version = "2.800".to_string();
    assert_eq!(software.save(&mut store, 2), Ok(()));
    let license = CameraLicense {
        abroad_info: "x".to_string(),
        all_type: true,
        digit_channel: 4,
        effective_days: 30,
        effective_time: 99,
        license_id: 7,
        product_type: "ipc".to_string(),
        status: 1,
        username: "admin".to_string(),
    };
    assert_eq!(CameraLicense::save(vec![license], &mut store, 2), Ok(()));

    assert_eq!(CameraDetail::find(&store, 2).unwrap().sn, "SN123");
    assert_eq!(CameraDetail::find(&store, 1).unwrap().sn, "");
    assert_eq!(CameraSoftware::find(&store, 2).unwrap().version, "2.800");
    let licenses = CameraLicense::list(&store, 2);
    assert_eq!(licenses.len(), 1);
    assert_eq!(licenses[0].license_id, 7);
    assert!(licenses[0].all_type);
}

#[test]
fn show_gathers_everything_about_a_camera() {
    let mut store = two_cameras();
    let mut detail = CameraDetail::blank();
    detail.device_type = "IPC-HDW".to_string();
    detail.save(&mut store, 1).unwrap();
    file(1, 5).upsert(&mut store).unwrap();
    file(1, 6).upsert(&mut store).unwrap();
    file(2, 6).upsert(&mut store).unwrap();
    let show = CameraShow::find(&store, 1).unwrap();
    assert_eq!(show.id, 1);
    assert_eq!(show.ip, "10.0.0.1");
    assert_eq!(show.username, "admin");
    assert_eq!(show.created_at, 11);
    assert_eq!(show.detail.device_type, "IPC-HDW");
    assert_eq!(show.software.build, "");
    assert!(show.licenses.is_empty());
    assert_eq!(show.file_total, 2);
}

#[test]
fn delete_removes_the_camera_with_all_that_belongs_to_it() {
    let mut store = two_cameras();
    file(1, 5).upsert(&mut store).unwrap();
    file(2, 6).upsert(&mut store).unwrap();
    for camera_id in [1, 2] {
        Scan::queue_db(&mut store, ScanKindPending::Manual(ScanRange::new(0, 9)), camera_id, 20)
            .unwrap();
        let mut actor = ScanActor::next(&mut store, 21).unwrap();
        actor.error = "failed".to_string();
        actor.end(&mut store, 22).unwrap();
    }
    Scan::queue_all_db(&mut store, ScanKindPending::Full, 30).unwrap();
    ScanActor::next(&mut store, 31).unwrap();
    ScanActor::next(&mut store, 31).unwrap();
    Scan::queue_all_db(&mut store, ScanKindPending::Cursor, 40).unwrap();

    assert_eq!(Camera::delete(&mut store, 1), Ok(()));
    assert_eq!(Camera::total(&store), 1);
    assert_eq!(Camera::find(&store, 1).unwrap_err(), DbError::NotFound);
    assert_eq!(
        ScanPending::list(&store),
        vec![ScanPending { camera_id: 2, kind: ScanKind::Cursor, range_start: 40, range_end: 40 }]
    );
    let active = ScanActive::list(&store);
    assert_eq!(active.len(), 1);
    assert_eq!(active[0].camera_id, 2);
    let done = ScanCompleted::list(&store, Page::new(1, 10));
    assert_eq!(done.total_items, 1);
    assert_eq!(done.items[0].camera_id, 2);
    assert_eq!(done.items[0].id, 2);
    assert_eq!(CameraFile::total(&store, &CameraFileQueryFilter::new()), 1);
    assert_eq!(Scan::queue_db(&mut store, ScanKindPending::Full, 1, 50), Err(DbError::NotFound));

    // ids are not used again
    assert_eq!(request("10.0.0.3").create_db(&mut store, 60), Ok(3));
}

#[test]
fn create_at_adds_the_camera_and_starts_its_full_scan() {
    let mut store = new();
    let (id, actors) = request("10.0.0.1").create_at(&mut store, 500).unwrap();
    assert_eq!(id, 1);
    assert_eq!(actors.len(), 1);
    assert_eq!(actors[0].camera_id, 1);
    assert_eq!(actors[0].kind, ScanKind::Full);
    assert_eq!(actors[0].range, ScanRange { start: 0, end: 500 });
    assert_eq!(ScanActive::list(&store).len(), 1);
    assert_eq!(Camera::find(&store, 1).unwrap().created_at, 500);
}

#[test]
fn create_at_before_the_epoch_is_a_conflict_and_adds_nothing() {
    let mut store = new();
    assert_eq!(request("10.0.0.1").create_at(&mut store, -5).unwrap_err(), DbError::Conflict);
    assert_eq!(Camera::total(&store), 0);
    assert!(ScanPending::list(&store).is_empty());
    assert!(ScanActive::list(&store).is_empty());
    let (id, actors) = request("10.0.0.1").create_at(&mut store, 0).unwrap();
    assert_eq!(id, 1);
    assert_eq!(actors.len(), 1);
}

#[test]
fn create_by_the_clock() {
    let mut store = new();
    let (id, actors) = request("10.0.0.1").create(&mut store).unwrap();
    assert_eq!(id, 1);
    assert_eq!(actors.len(), 1);
    assert!(Camera::find(&store, 1).unwrap().created_at > 1_577_836_800_000);
    assert_eq!(actors[0].started_at, Camera::find(&store, 1).unwrap().created_at);
}
